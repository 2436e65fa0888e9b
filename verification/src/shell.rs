//! The interactive page shell: how a typed line becomes a command.

use vstd::prelude::*;
use crate::text::{has_sub, strs, str_contains, chars_of, str_eq};
use crate::pages::{decimal, all_digits, is_digit};
use crate::screen_size::{whitespace, is_space};

verus! {

broadcast use vstd::seq_lib::group_seq_properties;

/// What a page-specific shell command reports.
pub enum ShellCommandResult {
    Success(Option<String>),
    Error(String),
    NotFound,
    Exit,
}

/// The runs of `s` between white space, empty ones included.
pub open spec fn ws_pieces(s: Seq<char>) -> Seq<Seq<char>>
    decreases s.len(),
{
    if s.len() == 0 {
        seq![Seq::<char>::empty()]
    } else {
        let rest = ws_pieces(s.drop_last());
        if whitespace(s.last()) {
            rest.push(Seq::empty())
        } else {
            rest.update(rest.len() - 1, rest.last().push(s.last()))
        }
    }
}

/// The words of `s`: its maximal runs without white space (`str::split_whitespace`).
pub open spec fn words(s: Seq<char>) -> Seq<Seq<char>> {
    ws_pieces(s).filter(|w: Seq<char>| w.len() > 0)
}

/// The words joined by single spaces.
pub open spec fn join_spaced(ws: Seq<Seq<char>>) -> Seq<char>
    decreases ws.len(),
{
    if ws.len() == 0 {
        Seq::empty()
    } else if ws.len() == 1 {
        ws[0]
    } else {
        join_spaced(ws.drop_last()) + seq![' '] + ws.last()
    }
}

/// `s` read as a `usize` the way `str::parse::<usize>` reads it: an
/// optional `+`, then one or more ASCII digits, and a value in range.
pub open spec fn parse_usize(s: Seq<char>) -> Option<usize> {
    let body = if s.len() > 0 && s[0] == '+' {
        s.drop_first()
    } else {
        s
    };
    if body.len() == 0 || !all_digits(body) || decimal(body) > usize::MAX {
        None
    } else {
        Some(decimal(body) as usize)
    }
}

/// A line typed into the page shell, understood.
#[derive(Debug, Clone, PartialEq, Eq)]
pub enum ShellCommand {
    /// Nothing but white space: ask again.
    Empty,
    Quit,
    ListElements,
    /// `click` without an index.
    ClickUsage,
    /// Click the element of this index.
    Click(usize),
    /// The index is past the last element.
    ClickOutOfRange(usize),
    /// The index is not a number.
    InvalidIndex(String),
    /// `click_text` without a text.
    ClickTextUsage,
    /// Click the element of this index, the first whose text holds the words.
    ClickText(usize),
    /// No element holds the words.
    TextNotFound(String),
    Screenshot,
    Help,
    /// Any other command, with its arguments, for the page to handle.
    Other(String, Vec<String>),
}

pub open spec fn is_quit(c: Seq<char>) -> bool {
    c == "quit"@ || c == "exit"@ || c == "q"@
}

pub open spec fn is_list(c: Seq<char>) -> bool {
    c == "elements"@ || c == "e"@ || c == "list"@ || c == "ls"@
}

pub open spec fn is_click(c: Seq<char>) -> bool {
    c == "click"@ || c == "c"@
}

pub open spec fn is_click_text(c: Seq<char>) -> bool {
    c == "click_text"@ || c == "ct"@
}

pub open spec fn is_screenshot(c: Seq<char>) -> bool {
    c == "screenshot"@ || c == "s"@ || c == "ss"@
}

pub open spec fn is_help(c: Seq<char>) -> bool {
    c == "help"@ || c == "h"@ || c == "?"@
}

/// `i` is the first element whose text holds `t`.
pub open spec fn first_holding(elements: Seq<Seq<char>>, t: Seq<char>, i: int) -> bool {
    0 <= i < elements.len() && has_sub(elements[i], t) && forall|k: int| 0 <= k < i ==> !has_sub(#[trigger] elements[k], t)
}

/// The command a line stands for, given the texts of the page's elements.
pub open spec fn command_spec(line: Seq<char>, elements: Seq<Seq<char>>, r: ShellCommand) -> bool {
    let ws = words(line);
    if ws.len() == 0 {
        r == ShellCommand::Empty
    } else {
        let cmd = ws[0];
        let args = ws.drop_first();
        if is_quit(cmd) {
            r == ShellCommand::Quit
        } else if is_list(cmd) {
            r == ShellCommand::ListElements
        } else if is_click(cmd) {
            if args.len() == 0 {
                r == ShellCommand::ClickUsage
            } else {
                match parse_usize(args[0]) {
                    Some(i) => if i < elements.len() {
                        r == ShellCommand::Click(i)
                    } else {
                        r == ShellCommand::ClickOutOfRange(i)
                    },
                    None => r matches ShellCommand::InvalidIndex(a) && a@ == args[0],
                }
            }
        } else if is_click_text(cmd) {
            if args.len() == 0 {
                r == ShellCommand::ClickTextUsage
            } else {
                let t = join_spaced(args);
                match r {
                    ShellCommand::ClickText(i) => first_holding(elements, t, i as int),
                    ShellCommand::TextNotFound(s) => s@ == t && forall|k: int|
                        0 <= k < elements.len() ==> !has_sub(#[trigger] elements[k], t),
                    _ => false,
                }
            }
        } else if is_screenshot(cmd) {
            r == ShellCommand::Screenshot
        } else if is_help(cmd) {
            r == ShellCommand::Help
        } else {
            r matches ShellCommand::Other(c, a) && c@ == cmd && strs(a@) == args
        }
    }
}


pub open spec fn nonempty() -> spec_fn(Seq<char>) -> bool {
    |w: Seq<char>| w.len() > 0
}

/// The words of `s` (`str::split_whitespace`).
pub fn split_words(s: &str) -> (r: Vec<String>)
    ensures
        strs(r@) == words(s@),
{
    let cs = chars_of(s);
    let n = cs.len();
    let mut done: Vec<String> = Vec::new();
    let mut start: usize = 0;
    let mut i: usize = 0;
    reveal(Seq::filter);
    assert(cs@.take(0) =~= Seq::<char>::empty());
    assert(ws_pieces(cs@.take(0)).drop_last() =~= Seq::<Seq<char>>::empty());
    while i < n
        invariant
            cs@ == s@,
            n == cs@.len(),
            start <= i <= n,
            ws_pieces(cs@.take(i as int)).len() >= 1,
            strs(done@) == ws_pieces(cs@.take(i as int)).drop_last().filter(nonempty()),
            ws_pieces(cs@.take(i as int)).last() == cs@.subrange(start as int, i as int),
        decreases n - i,
    {
        let c = cs[i];
        let ghost prev = ws_pieces(cs@.take(i as int));
        assert(cs@.take(i + 1).drop_last() =~= cs@.take(i as int));
        assert(cs@.take(i + 1).last() == c);
        assert(prev =~= prev.drop_last().push(prev.last()));
        if is_space(c) {
            proof {
                prev.drop_last().lemma_filter_push(prev.last(), nonempty());
                assert(ws_pieces(cs@.take(i + 1)).drop_last() =~= prev);
            }
            if start < i {
                let w = s.substring_char(start, i);
                let ghost before = strs(done@);
                done.push(String::from_str(w));
                assert(strs(done@) =~= before.push(cs@.subrange(start as int, i as int)));
            } else {
                assert(prev.last().len() == 0);
            }
            start = i + 1;
            assert(ws_pieces(cs@.take(i + 1)).last() =~= cs@.subrange(start as int, i + 1));
        } else {
            assert(ws_pieces(cs@.take(i + 1)).drop_last() =~= prev.drop_last());
            assert(ws_pieces(cs@.take(i + 1)).last() =~= cs@.subrange(start as int, i + 1));
        }
        i = i + 1;
    }
    let ghost all = ws_pieces(cs@.take(n as int));
    assert(cs@.take(n as int) =~= cs@);
    assert(all =~= all.drop_last().push(all.last()));
    proof {
        all.drop_last().lemma_filter_push(all.last(), nonempty());
    }
    if start < n {
        let w = s.substring_char(start, n);
        let ghost before = strs(done@);
        done.push(String::from_str(w));
        assert(strs(done@) =~= before.push(cs@.subrange(start as int, n as int)));
    }
    done
}

/// The words from the second on, joined by single spaces.
fn join_args(ws: &Vec<String>) -> (r: String)
    requires
        ws@.len() >= 2,
    ensures
        r@ == join_spaced(strs(ws@).drop_first()),
{
    let ghost args = strs(ws@).drop_first();
    let mut r = ws[1].clone();
    let mut k: usize = 2;
    assert(args.take(1) =~= seq![args[0]]);
    while k < ws.len()
        invariant
            2 <= k <= ws@.len(),
            args == strs(ws@).drop_first(),
            r@ == join_spaced(args.take(k - 1)),
        decreases ws@.len() - k,
    {
        r.append(" ");
        r.append(ws[k].as_str());
        assert(args.take(k as int).drop_last() =~= args.take(k - 1));
        assert(args.take(k as int).last() == ws@[k as int]@);
        assert(r@ =~= join_spaced(args.take(k - 1)) + seq![' '] + ws@[k as int]@) by {
            reveal_strlit(" ");
        }
        k = k + 1;
    }
    assert(args.take(ws@.len() - 1) =~= args);
    r
}

/// `s` read as a `usize` the way `str::parse::<usize>` reads it.
pub fn parse_usize_str(s: &String) -> (r: Option<usize>)
    ensures
        r == parse_usize(s@),
{
    let cs = chars_of(s.as_str());
    let n = cs.len();
    let start: usize = if n > 0 && cs[0] == '+' {
        1
    } else {
        0
    };
    let ghost body = if s@.len() > 0 && s@[0] == '+' {
        s@.drop_first()
    } else {
        s@
    };
    assert(body =~= cs@.subrange(start as int, n as int));
    if start >= n {
        return None;
    }
    let mut v: usize = 0;
    let mut over = false;
    let mut k: usize = start;
    assert(body.take(0) =~= Seq::<char>::empty());
    while k < n
        invariant
            cs@ == s@,
            n == cs@.len(),
            start <= k <= n,
            body =~= cs@.subrange(start as int, n as int),
            body == (if s@.len() > 0 && s@[0] == '+' {
                s@.drop_first()
            } else {
                s@
            }),
            all_digits(body.take(k - start)),
            decimal(body.take(k - start)) >= 0,
            !over ==> v == decimal(body.take(k - start)),
            over ==> decimal(body.take(k - start)) > usize::MAX,
        decreases n - k,
    {
        let c = cs[k];
        assert(body.take(k + 1 - start) =~= body.take(k - start).push(c));
        assert(body.take(k + 1 - start).drop_last() =~= body.take(k - start));
        if !(c >= '0' && c <= '9') {
            assert(body[k - start] == c);
            assert(!is_digit(body[k - start]));
            return None;
        }
        let d = (c as u32 - '0' as u32) as usize;
        if !over {
            match v.checked_mul(10) {
                Some(t) => match t.checked_add(d) {
                    Some(nv) => {
                        v = nv;
                    },
                    None => {
                        over = true;
                    },
                },
                None => {
                    over = true;
                },
            }
        }
        k = k + 1;
    }
    assert(body.take(n - start) =~= body);
    if over {
        None
    } else {
        Some(v)
    }
}

/// The first element whose text holds `t`.
fn first_holding_index(elements: &[String], t: &String) -> (r: Option<usize>)
    ensures
        r matches Some(i) ==> first_holding(strs(elements@), t@, i as int),
        r is None ==> forall|k: int| 0 <= k < elements@.len() ==> !has_sub(#[trigger] strs(elements@)[k], t@),
{
    let mut i: usize = 0;
    while i < elements.len()
        invariant
            i <= elements@.len(),
            forall|k: int| 0 <= k < i ==> !has_sub(#[trigger] strs(elements@)[k], t@),
        decreases elements@.len() - i,
    {
        if str_contains(elements[i].as_str(), t.as_str()) {
            return Some(i);
        }
        i = i + 1;
    }
    None
}

/// What the line typed into the page shell asks for, given the texts of
/// the page's elements.
pub fn parse_shell_command(line: &str, elements: &[String]) -> (r: ShellCommand)
    ensures
        command_spec(line@, strs(elements@), r),
{
    let ws = split_words(line);
    if ws.len() == 0 {
        return ShellCommand::Empty;
    }
    let ghost w = strs(ws@);
    assert(w[0] == ws@[0]@);
    let cmd = ws[0].as_str();
    if str_eq(cmd, "quit") || str_eq(cmd, "exit") || str_eq(cmd, "q") {
        ShellCommand::Quit
    } else if str_eq(cmd, "elements") || str_eq(cmd, "e") || str_eq(cmd, "list") || str_eq(cmd, "ls") {
        ShellCommand::ListElements
    } else if str_eq(cmd, "click") || str_eq(cmd, "c") {
        if ws.len() < 2 {
            ShellCommand::ClickUsage
        } else {
            assert(w.drop_first()[0] == ws@[1]@);
            match parse_usize_str(&ws[1]) {
                Some(i) => if i < elements.len() {
                    ShellCommand::Click(i)
                } else {
                    ShellCommand::ClickOutOfRange(i)
                },
                None => ShellCommand::InvalidIndex(ws[1].clone()),
            }
        }
    } else if str_eq(cmd, "click_text") || str_eq(cmd, "ct") {
        if ws.len() < 2 {
            ShellCommand::ClickTextUsage
        } else {
            let t = join_args(&ws);
            match first_holding_index(elements, &t) {
                Some(i) => ShellCommand::ClickText(i),
                None => ShellCommand::TextNotFound(t),
            }
        }
    } else if str_eq(cmd, "screenshot") || str_eq(cmd, "s") || str_eq(cmd, "ss") {
        ShellCommand::Screenshot
    } else if str_eq(cmd, "help") || str_eq(cmd, "h") || str_eq(cmd, "?") {
        ShellCommand::Help
    } else {
        let mut args: Vec<String> = Vec::new();
        let mut k: usize = 1;
        while k < ws.len()
            invariant
                1 <= k <= ws@.len(),
                w == strs(ws@),
                strs(args@) == w.drop_first().take(k - 1),
            decreases ws@.len() - k,
        {
            let ghost before = strs(args@);
            args.push(ws[k].clone());
            assert(strs(args@) =~= before.push(ws@[k as int]@));
            assert(w.drop_first().take(k as int) =~= w.drop_first().take(k - 1).push(w[k as int]));
            assert(strs(args@) =~= w.drop_first().take(k as int));
            k = k + 1;
        }
        assert(w.drop_first().take(ws@.len() - 1) =~= w.drop_first());
        ShellCommand::Other(ws[0].clone(), args)
    }
}

/// What a typed line asks for by its first word: "quit", "exit" or "q"
/// quit; "elements", "e", "list" or "ls" list the elements; "click" or "c"
/// with an index clicks the element of that index when there is one and is
/// out of range otherwise; "click_text" or "ct" clicks the first element
/// whose text holds the rest of the line; "screenshot", "s" or "ss" saves
/// the screen; "help", "h" or "?" shows the help; a line without words asks
/// again.
pub proof fn law_commands_by_their_first_word(line: Seq<char>, elements: Seq<Seq<char>>, r: ShellCommand)
    requires
        command_spec(line, elements, r),
    ensures
        words(line).len() == 0 ==> r == ShellCommand::Empty,
        words(line).len() > 0 && (words(line)[0] == "quit"@ || words(line)[0] == "exit"@ || words(line)[0] == "q"@)
            ==> r == ShellCommand::Quit,
        words(line).len() > 0 && (words(line)[0] == "elements"@ || words(line)[0] == "e"@ || words(line)[0] == "list"@
            || words(line)[0] == "ls"@) ==> r == ShellCommand::ListElements,
        words(line).len() > 0 && (words(line)[0] == "screenshot"@ || words(line)[0] == "s"@ || words(line)[0] == "ss"@)
            ==> r == ShellCommand::Screenshot,
        words(line).len() > 0 && (words(line)[0] == "help"@ || words(line)[0] == "h"@ || words(line)[0] == "?"@) ==> r
            == ShellCommand::Help,
        words(line).len() >= 2 && (words(line)[0] == "click"@ || words(line)[0] == "c"@) && parse_usize(words(line)[1])
            is Some ==> r == (if parse_usize(words(line)[1])->0 < elements.len() {
            ShellCommand::Click(parse_usize(words(line)[1])->0)
        } else {
            ShellCommand::ClickOutOfRange(parse_usize(words(line)[1])->0)
        }),
        r matches ShellCommand::ClickText(i) ==> words(line).len() >= 2 && (words(line)[0] == "click_text"@
            || words(line)[0] == "ct"@) && i < elements.len() && has_sub(
            elements[i as int],
            join_spaced(words(line).drop_first()),
        ) && forall|k: int| 0 <= k < i ==> !has_sub(#[trigger] elements[k], join_spaced(words(line).drop_first())),
{
    reveal_strlit("quit");
    reveal_strlit("exit");
    reveal_strlit("q");
    reveal_strlit("elements");
    reveal_strlit("e");
    reveal_strlit("list");
    reveal_strlit("ls");
    reveal_strlit("click");
    reveal_strlit("c");
    reveal_strlit("click_text");
    reveal_strlit("ct");
    reveal_strlit("screenshot");
    reveal_strlit("s");
    reveal_strlit("ss");
    reveal_strlit("help");
    reveal_strlit("h");
    reveal_strlit("?");
    if words(line).len() >= 2 {
        assert(words(line).drop_first()[0] == words(line)[1]);
    }
    if words(line).len() > 0 {
        let c = words(line)[0];
        assert("quit"@[0] == 'q' && "exit"@[0] == 'e' && "q"@[0] == 'q' && "e"@[0] == 'e');
        assert("list"@[0] == 'l' && "s"@[0] == 's' && "ss"@[0] == 's' && "ls"@[0] == 'l');
        assert("c"@[0] == 'c' && "ct"@[0] == 'c' && "elements"@[0] == 'e' && "screenshot"@[0] == 's');
        assert("click"@[0] == 'c' && "click_text"@[0] == 'c');
        if is_list(c) {
            assert(c.len() == 1 || c.len() == 2 || c.len() == 4 || c.len() == 8);
            assert(!is_quit(c));
        }
        if is_screenshot(c) {
            assert(c.len() == 1 || c.len() == 2 || c.len() == 10);
            assert(c[0] == 's');
            assert(!is_quit(c));
            assert(!is_list(c));
            assert(!is_click(c));
            assert(!is_click_text(c));
        }
    }
}


proof fn lemma_pieces_hold_no_space(s: Seq<char>)
    ensures
        forall|k: int, j: int|
            0 <= k < ws_pieces(s).len() && 0 <= j < ws_pieces(s)[k].len() ==> !whitespace(#[trigger] ws_pieces(s)[k][j]),
        ws_pieces(s).len() >= 1,
    decreases s.len(),
{
    if s.len() > 0 {
        lemma_pieces_hold_no_space(s.drop_last());
        let rest = ws_pieces(s.drop_last());
        if !whitespace(s.last()) {
            let p = ws_pieces(s);
            assert forall|k: int, j: int| 0 <= k < p.len() && 0 <= j < p[k].len() implies !whitespace(#[trigger] p[k][j]) by {
                if k == rest.len() - 1 {
                    if j < rest.last().len() {
                        assert(p[k][j] == rest[k][j]);
                    }
                } else {
                    assert(p[k] == rest[k]);
                }
            }
        } else {
            let p = ws_pieces(s);
            assert forall|k: int, j: int| 0 <= k < p.len() && 0 <= j < p[k].len() implies !whitespace(#[trigger] p[k][j]) by {
                if k < rest.len() {
                    assert(p[k] == rest[k]);
                }
            }
        }
    }
}

/// Every word of a line is non-empty and holds no white space.
pub proof fn law_words_are_nonempty_and_hold_no_space(s: Seq<char>)
    ensures
        forall|k: int| 0 <= k < words(s).len() ==> #[trigger] words(s)[k].len() > 0,
        forall|k: int, j: int| 0 <= k < words(s).len() && 0 <= j < words(s)[k].len() ==> !whitespace(#[trigger] words(s)[k][j]),
{
    lemma_pieces_hold_no_space(s);
    let p = ws_pieces(s);
    let f = |w: Seq<char>| w.len() > 0;
    assert(words(s) == p.filter(f));
    assert forall|k: int| 0 <= k < words(s).len() implies #[trigger] words(s)[k].len() > 0 by {
        p.lemma_filter_pred(f, k);
    }
    assert forall|k: int, j: int| 0 <= k < words(s).len() && 0 <= j < words(s)[k].len() implies !whitespace(#[trigger] words(s)[k][j]) by {
        assert(p.filter(f).contains(p.filter(f)[k]));
        p.lemma_filter_contains_rev(f, p.filter(f)[k]);
        let m = choose|m: int| 0 <= m < p.len() && p[m] == p.filter(f)[k];
        assert(!whitespace(p[m][j]));
    }
}

} // verus!
