//! The screen size that the device reports (`wm size`).

use vstd::prelude::*;
use crate::text::{has_sub, str_contains, chars_of};
use crate::pages::{decimal, is_digit, all_digits};

verus! {

broadcast use vstd::seq_lib::group_seq_properties;

/// The pieces of `s` between the separators `sep`, in order; `n`
/// separators give `n + 1` pieces (the pieces of `str::split`).
pub open spec fn split_on(s: Seq<char>, sep: char) -> Seq<Seq<char>>
    decreases s.len(),
{
    if s.len() == 0 {
        seq![Seq::<char>::empty()]
    } else {
        let rest = split_on(s.drop_last(), sep);
        if s.last() == sep {
            rest.push(Seq::empty())
        } else {
            rest.update(rest.len() - 1, rest.last().push(s.last()))
        }
    }
}

/// White space as `char::is_whitespace` has it: the characters with the
/// Unicode `White_Space` property, U+0009 to U+000D, U+0020, U+0085, U+00A0,
/// U+1680, U+2000 to U+200A, U+2028, U+2029, U+202F, U+205F and U+3000.
pub open spec fn whitespace(c: char) -> bool {
    ('\u{9}' <= c && c <= '\u{d}') || c == ' ' || c == '\u{85}' || c == '\u{a0}' || c == '\u{1680}' || ('\u{2000}'
        <= c && c <= '\u{200a}') || c == '\u{2028}' || c == '\u{2029}' || c == '\u{202f}' || c == '\u{205f}' || c
        == '\u{3000}'
}

/// Whether `c` is white space (`char::is_whitespace`).
pub fn is_space(c: char) -> (r: bool)
    ensures
        r == whitespace(c),
{
    ('\u{9}' <= c && c <= '\u{d}') || c == ' ' || c == '\u{85}' || c == '\u{a0}' || c == '\u{1680}' || ('\u{2000}'
        <= c && c <= '\u{200a}') || c == '\u{2028}' || c == '\u{2029}' || c == '\u{202f}' || c == '\u{205f}' || c
        == '\u{3000}'
}

/// `s` without its leading white space.
pub open spec fn trim_start(s: Seq<char>) -> Seq<char>
    decreases s.len(),
{
    if s.len() > 0 && whitespace(s[0]) {
        trim_start(s.drop_first())
    } else {
        s
    }
}

/// `s` without its trailing white space.
pub open spec fn trim_end(s: Seq<char>) -> Seq<char>
    decreases s.len(),
{
    if s.len() > 0 && whitespace(s.last()) {
        trim_end(s.drop_last())
    } else {
        s
    }
}

/// `s` without white space at either end (`str::trim`).
pub open spec fn trim(s: Seq<char>) -> Seq<char> {
    trim_end(trim_start(s))
}

/// The value of `s` read as an `i32` the way `str::parse::<i32>` reads it:
/// an optional `+` or `-`, then one or more ASCII digits, and a value in range.
pub open spec fn parse_i32(s: Seq<char>) -> Option<i32> {
    let neg = s.len() > 0 && s[0] == '-';
    let body = if s.len() > 0 && (s[0] == '-' || s[0] == '+') {
        s.drop_first()
    } else {
        s
    };
    if body.len() == 0 || !all_digits(body) {
        None
    } else {
        let v = if neg {
            -decimal(body)
        } else {
            decimal(body)
        };
        if i32::MIN <= v <= i32::MAX {
            Some(v as i32)
        } else {
            None
        }
    }
}

/// The text after the first colon of `line`, up to the next colon if any,
/// without white space at its ends; empty when there is no colon.
pub open spec fn size_field(line: Seq<char>) -> Seq<char> {
    let parts = split_on(line, ':');
    if parts.len() >= 2 {
        trim(parts[1])
    } else {
        Seq::empty()
    }
}

/// Why the reported size could not be read.
#[derive(Debug, Clone, Copy, PartialEq, Eq)]
pub enum ScreenSizeError {
    /// The first "Physical size" line of the form `AxB` holds a number
    /// that is not an `i32`.
    BadNumber,
}

/// The size (long side first) that the lines of `wm size` report: the first
/// line that mentions "Physical size" and whose field has the form `WxH`
/// decides; no such line gives 1920 by 1080.
pub open spec fn size_of_lines(lines: Seq<Seq<char>>) -> Result<(i32, i32), ScreenSizeError>
    decreases lines.len(),
{
    if lines.len() == 0 {
        Ok((1920, 1080))
    } else {
        let l = lines[0];
        let parts = split_on(size_field(l), 'x');
        if has_sub(l, "Physical size"@) && parts.len() == 2 {
            match (parse_i32(parts[0]), parse_i32(parts[1])) {
                (Some(w), Some(h)) => Ok(
                    if w < h {
                        (h, w)
                    } else {
                        (w, h)
                    },
                ),
                _ => Err(ScreenSizeError::BadNumber),
            }
        } else {
            size_of_lines(lines.drop_first())
        }
    }
}

/// The pieces of `s` between the separators `sep`.
pub fn split_chars(s: &Vec<char>, sep: char) -> (r: Vec<Vec<char>>)
    ensures
        r@.map_values(|v: Vec<char>| v@) == split_on(s@, sep),
{
    let mut done: Vec<Vec<char>> = Vec::new();
    let mut cur: Vec<char> = Vec::new();
    let mut i: usize = 0;
    assert(s@.take(0) =~= Seq::<char>::empty());
    assert(done@.map_values(|v: Vec<char>| v@).push(cur@) =~= split_on(s@.take(0), sep));
    while i < s.len()
        invariant
            i <= s@.len(),
            done@.map_values(|v: Vec<char>| v@).push(cur@) == split_on(s@.take(i as int), sep),
        decreases s@.len() - i,
    {
        let c = s[i];
        let ghost before = done@.map_values(|v: Vec<char>| v@);
        let ghost prefix = s@.take(i + 1);
        assert(prefix.drop_last() =~= s@.take(i as int));
        assert(prefix.last() == c);
        if c == sep {
            let finished = cur;
            done.push(finished);
            cur = Vec::new();
            assert(done@.map_values(|v: Vec<char>| v@) =~= before.push(finished@));
            assert(done@.map_values(|v: Vec<char>| v@).push(cur@) =~= split_on(prefix, sep));
        } else {
            let ghost old_cur = cur@;
            cur.push(c);
            assert(done@.map_values(|v: Vec<char>| v@).push(cur@) =~= before.push(old_cur).update(
                before.len() as int,
                old_cur.push(c),
            ));
        }
        i = i + 1;
    }
    assert(s@.take(s@.len() as int) =~= s@);
    let ghost before = done@.map_values(|v: Vec<char>| v@);
    done.push(cur);
    assert(done@.map_values(|v: Vec<char>| v@) =~= before.push(cur@));
    done
}


/// `s` without white space at either end.
pub fn trim_chars(s: &Vec<char>) -> (r: Vec<char>)
    ensures
        r@ == trim(s@),
{
    let n = s.len();
    let mut a: usize = 0;
    assert(s@.skip(0) =~= s@);
    while a < n && is_space(s[a])
        invariant
            n == s@.len(),
            a <= n,
            trim_start(s@) == trim_start(s@.skip(a as int)),
        decreases n - a,
    {
        assert(s@.skip(a as int).drop_first() =~= s@.skip(a + 1));
        a = a + 1;
    }
    let ghost t = s@.skip(a as int);
    assert(trim_start(t) == t);
    let mut b: usize = n;
    assert(t.take((n - a) as int) =~= t);
    while b > a && is_space(s[b - 1])
        invariant
            n == s@.len(),
            a <= b <= n,
            t == s@.skip(a as int),
            trim_end(t) == trim_end(t.take(b - a)),
        decreases b - a,
    {
        assert(t.take(b - a).last() == s@[b - 1]);
        assert(t.take(b - a).drop_last() =~= t.take(b - 1 - a));
        b = b - 1;
    }
    let mut r: Vec<char> = Vec::new();
    let mut k: usize = a;
    while k < b
        invariant
            a <= k <= b <= n,
            n == s@.len(),
            r@ == s@.subrange(a as int, k as int),
        decreases b - k,
    {
        r.push(s[k]);
        k = k + 1;
        assert(r@ =~= s@.subrange(a as int, k as int));
    }
    assert(r@ =~= t.take(b - a));
    r
}

proof fn lemma_decimal_step(d: Seq<char>, c: char)
    ensures
        decimal(d.push(c)) == decimal(d) * 10 + (c as int - '0' as int),
{
    assert(d.push(c).drop_last() =~= d);
}

/// `s` read as an `i32` the way `str::parse::<i32>` reads it.
pub fn parse_i32_chars(s: &Vec<char>) -> (r: Option<i32>)
    ensures
        r == parse_i32(s@),
{
    let n = s.len();
    let neg = n > 0 && s[0] == '-';
    let start: usize = if n > 0 && (s[0] == '-' || s[0] == '+') {
        1
    } else {
        0
    };
    let ghost body = if s@.len() > 0 && (s@[0] == '-' || s@[0] == '+') {
        s@.drop_first()
    } else {
        s@
    };
    assert(body =~= s@.subrange(start as int, n as int));
    if start >= n {
        return None;
    }
    let mut v: i64 = 0;
    let mut over = false;
    let mut k: usize = start;
    assert(body.take(0) =~= Seq::<char>::empty());
    while k < n
        invariant
            n == s@.len(),
            start <= k <= n,
            body =~= s@.subrange(start as int, n as int),
            body == (if s@.len() > 0 && (s@[0] == '-' || s@[0] == '+') {
                s@.drop_first()
            } else {
                s@
            }),
            all_digits(body.take(k - start)),
            decimal(body.take(k - start)) >= 0,
            !over ==> v == decimal(body.take(k - start)) && 0 <= v <= 0x8000_0000,
            over ==> decimal(body.take(k - start)) > 0x8000_0000,
        decreases n - k,
    {
        let c = s[k];
        assert(body.take(k + 1 - start) =~= body.take(k - start).push(c));
        if !(c >= '0' && c <= '9') {
            assert(body[k - start] == c);
            assert(!is_digit(body[k - start]));
            assert(!all_digits(body));
            assert(body.len() > 0);
            assert(parse_i32(s@) is None);
            return None;
        }
        proof {
            lemma_decimal_step(body.take(k - start), c);
        }
        if !over {
            let nv = v * 10 + (c as u32 - '0' as u32) as i64;
            if nv > 0x8000_0000 {
                over = true;
            } else {
                v = nv;
            }
        }
        k = k + 1;
    }
    assert(body.take(n - start) =~= body);
    if over {
        return None;
    }
    if neg {
        Some((-v) as i32)
    } else if v > 0x7fff_ffff {
        None
    } else {
        Some(v as i32)
    }
}

/// Reads the screen size, long side first, from the output of `wm size`:
/// the first line that mentions "Physical size" and whose field has the form
/// `WxH` decides; without one the size is 1920 by 1080.
pub fn parse_screen_size(output: &str) -> (r: Result<(i32, i32), ScreenSizeError>)
    ensures
        r == size_of_lines(split_on(output@, '\n')),
{
    let text = chars_of(output);
    let lines = split_chars(&text, '\n');
    let ghost all = split_on(output@, '\n');
    let key = chars_of("Physical size");
    let mut i: usize = 0;
    assert(lines@.map_values(|v: Vec<char>| v@).skip(0) =~= all);
    while i < lines.len()
        invariant
            i <= lines@.len(),
            lines@.map_values(|v: Vec<char>| v@) == all,
            all == split_on(output@, '\n'),
            key@ == "Physical size"@,
            size_of_lines(all) == size_of_lines(all.skip(i as int)),
        decreases lines@.len() - i,
    {
        let line = &lines[i];
        assert(all.skip(i as int)[0] == line@);
        assert(all.skip(i as int).drop_first() =~= all.skip(i + 1));
        if crate::text::vec_contains(line, &key) {
            let pieces = split_chars(line, ':');
            let ghost pv = pieces@.map_values(|v: Vec<char>| v@);
            assert(pv.len() == pieces@.len());
            let field: Vec<char> = if pieces.len() >= 2 {
                assert(pv[1] == pieces@[1]@);
                trim_chars(&pieces[1])
            } else {
                Vec::new()
            };
            assert(field@ =~= size_field(line@));
            let parts = split_chars(&field, 'x');
            let ghost qv = parts@.map_values(|v: Vec<char>| v@);
            assert(qv.len() == parts@.len());
            assert(has_sub(line@, "Physical size"@));
            if parts.len() == 2 {
                assert(qv[0] == parts@[0]@);
                assert(qv[1] == parts@[1]@);
                let w = parse_i32_chars(&parts[0]);
                let h = parse_i32_chars(&parts[1]);
                proof {
                    let l = all.skip(i as int)[0];
                    assert(l == line@);
                    assert(split_on(size_field(l), 'x') == qv);
                    assert(all.skip(i as int).len() > 0);
                }
                match (w, h) {
                    (Some(w), Some(h)) => {
                        return Ok(
                            if w < h {
                                (h, w)
                            } else {
                                (w, h)
                            },
                        );
                    },
                    _ => {
                        return Err(ScreenSizeError::BadNumber);
                    },
                }
            }
        }
        i = i + 1;
    }
    Ok((1920, 1080))
}


/// The size read is reported long side first.
pub proof fn law_size_long_side_first(lines: Seq<Seq<char>>)
    ensures
        size_of_lines(lines) matches Ok((a, b)) ==> a >= b,
    decreases lines.len(),
{
    if lines.len() > 0 {
        law_size_long_side_first(lines.drop_first());
    }
}


/// Output in which no line mentions "Physical size" gives 1920 by 1080.
pub proof fn law_no_physical_size_gives_the_default(lines: Seq<Seq<char>>)
    requires
        forall|i: int| 0 <= i < lines.len() ==> !has_sub(#[trigger] lines[i], "Physical size"@),
    ensures
        size_of_lines(lines) == Ok::<(i32, i32), ScreenSizeError>((1920, 1080)),
    decreases lines.len(),
{
    if lines.len() > 0 {
        assert(!has_sub(lines[0], "Physical size"@));
        assert forall|i: int| 0 <= i < lines.drop_first().len() implies !has_sub(#[trigger] lines.drop_first()[i], "Physical size"@) by {
            assert(lines.drop_first()[i] == lines[i + 1]);
        }
        law_no_physical_size_gives_the_default(lines.drop_first());
    }
}

/// Lines before the first one that mentions "Physical size" play no part:
/// the size read from all the lines is the size read from that one on.
pub proof fn law_lines_before_the_size_do_not_count(lines: Seq<Seq<char>>, k: int)
    requires
        0 <= k <= lines.len(),
        forall|i: int| 0 <= i < k ==> !has_sub(#[trigger] lines[i], "Physical size"@),
    ensures
        size_of_lines(lines) == size_of_lines(lines.skip(k)),
    decreases k,
{
    if k > 0 {
        assert(!has_sub(lines[0], "Physical size"@));
        assert(lines.drop_first().skip(k - 1) =~= lines.skip(k));
        assert forall|i: int| 0 <= i < k - 1 implies !has_sub(#[trigger] lines.drop_first()[i], "Physical size"@) by {
            assert(lines.drop_first()[i] == lines[i + 1]);
        }
        law_lines_before_the_size_do_not_count(lines.drop_first(), k - 1);
    } else {
        assert(lines.skip(0) =~= lines);
    }
}

} // verus!
