//! Choosing the device to talk to, and reading what it sends back.

use vstd::prelude::*;
use crate::text::{str_eq, chars_of};

verus! {

/// The device that a run should use, from the serial numbers the server
/// lists (a device may have none): with a wanted serial, that serial when a
/// device has it; without one, the serial of the first device listed.
pub open spec fn chosen_device(serials: Seq<Option<Seq<char>>>, wanted: Option<Seq<char>>) -> Option<Seq<char>> {
    match wanted {
        Some(w) => if exists|i: int| 0 <= i < serials.len() && #[trigger] serials[i] == Some(w) {
            Some(w)
        } else {
            None
        },
        None => if serials.len() > 0 {
            serials[0]
        } else {
            None
        },
    }
}

pub open spec fn opt_view(s: Option<String>) -> Option<Seq<char>> {
    match s {
        Some(x) => Some(x@),
        None => None,
    }
}

pub open spec fn serials_view(s: Seq<Option<String>>) -> Seq<Option<Seq<char>>> {
    s.map_values(|o: Option<String>| opt_view(o))
}

fn same_serial(a: &Option<String>, b: &str) -> (r: bool)
    ensures
        r == (opt_view(*a) == Some(b@)),
{
    match a {
        Some(x) => str_eq(x.as_str(), b),
        None => false,
    }
}

/// The serial of the device to use; see [`chosen_device`].
pub fn select_device(serials: &[Option<String>], wanted: Option<&str>) -> (r: Option<String>)
    ensures
        opt_view(r) == chosen_device(serials_view(serials@), match wanted {
            Some(w) => Some(w@),
            None => None,
        }),
{
    let ghost sv = serials_view(serials@);
    match wanted {
        Some(id) => {
            let mut i: usize = 0;
            while i < serials.len()
                invariant
                    i <= serials@.len(),
                    sv == serials_view(serials@),
                    wanted == Some(id),
                    forall|k: int| 0 <= k < i ==> #[trigger] sv[k] != Some(id@),
                decreases serials@.len() - i,
            {
                assert(sv[i as int] == opt_view(serials@[i as int]));
                if same_serial(&serials[i], id) {
                    assert(sv.len() == serials@.len());
                    assert(sv[i as int] == Some(id@));
                    assert(chosen_device(sv, Some(id@)) == Some(id@));
                    let found = String::from_str(id);
                    assert(opt_view(Some(found)) == Some(id@));
                    return Some(found);
                }
                i = i + 1;
            }
            None
        },
        None => {
            if serials.len() > 0 {
                assert(sv[0] == opt_view(serials@[0]));
                match &serials[0] {
                    Some(x) => Some(x.clone()),
                    None => None,
                }
            } else {
                None
            }
        },
    }
}

/// A listed device is the one to act on: any device when none was chosen,
/// else the one whose serial is the chosen one.
pub fn is_target(device: &Option<String>, chosen: &Option<String>) -> (r: bool)
    ensures
        r == (chosen is None || opt_view(*device) == opt_view(*chosen)),
{
    match chosen {
        None => true,
        Some(c) => same_serial(device, c.as_str()),
    }
}

/// The PNG signature: byte 0x89 then "PNG".
pub open spec fn png_magic_at(data: Seq<u8>, i: int) -> bool {
    0 <= i && i + 4 <= data.len() && data[i] == 0x89u8 && data[i + 1] == 0x50u8 && data[i + 2] == 0x4eu8 && data[i + 3]
        == 0x47u8
}

/// Where the screenshot's PNG data begins in what the device sent: the first
/// PNG signature, or the start when there is none.
pub open spec fn png_start_spec(data: Seq<u8>, r: int) -> bool {
    if exists|i: int| #[trigger] png_magic_at(data, i) {
        png_magic_at(data, r) && forall|k: int| 0 <= k < r ==> !#[trigger] png_magic_at(data, k)
    } else {
        r == 0
    }
}

pub fn png_start(data: &[u8]) -> (r: usize)
    ensures
        png_start_spec(data@, r as int),
{
    let n = data.len();
    let mut i: usize = 0;
    while i < n && n - i >= 4
        invariant
            n == data@.len(),
            forall|k: int| 0 <= k < i ==> !#[trigger] png_magic_at(data@, k),
        decreases n - i,
    {
        if data[i] == 0x89u8 && data[i + 1] == 0x50u8 && data[i + 2] == 0x4eu8 && data[i + 3] == 0x47u8 {
            assert(png_magic_at(data@, i as int));
            return i;
        }
        i = i + 1;
    }
    0
}

/// A path from the list of usual places: a leading `~` stands for the home
/// directory `home`, and such a path is skipped (`None`) without one.
pub open spec fn expand_home_spec(path: Seq<char>, home: Option<Seq<char>>) -> Option<Seq<char>> {
    if path.len() > 0 && path[0] == '~' {
        match home {
            Some(h) => Some(h + path.drop_first()),
            None => None,
        }
    } else {
        Some(path)
    }
}

pub fn expand_home(path: &str, home: Option<&str>) -> (r: Option<String>)
    ensures
        opt_view(r) == expand_home_spec(path@, match home {
            Some(h) => Some(h@),
            None => None,
        }),
{
    let n = path.unicode_len();
    if n > 0 && path.get_char(0) == '~' {
        match home {
            Some(h) => {
                let rest = path.substring_char(1, n);
                let s = String::from_str(h);
                let r = s.concat(rest);
                assert(r@ =~= h@ + path@.drop_first());
                Some(r)
            },
            None => None,
        }
    } else {
        Some(String::from_str(path))
    }
}


/// The device chosen is one that is listed; with a wanted serial it is that
/// serial or none at all, and a listed wanted serial is always found;
/// without one it is the first device listed.
pub proof fn law_chosen_device_is_listed(serials: Seq<Option<Seq<char>>>, wanted: Option<Seq<char>>)
    ensures
        chosen_device(serials, wanted) matches Some(c) ==> exists|i: int| 0 <= i < serials.len() && #[trigger] serials[i] == Some(c),
        wanted matches Some(w) ==> (chosen_device(serials, wanted) == Some(w) || chosen_device(serials, wanted) is None),
        wanted matches Some(w) ==> ((exists|i: int| 0 <= i < serials.len() && #[trigger] serials[i] == Some(w))
            ==> chosen_device(serials, wanted) == Some(w)),
        wanted is None && serials.len() > 0 ==> chosen_device(serials, wanted) == serials[0],
{
    if let Some(c) = chosen_device(serials, wanted) {
        if wanted is None {
            assert(serials[0] == Some(c));
        }
    }
}

/// Data that starts with the PNG signature is read from its first byte.
pub proof fn law_signature_at_the_start_is_kept(data: Seq<u8>, r: int)
    requires
        data.len() >= 4,
        data[0] == 0x89u8 && data[1] == 0x50u8 && data[2] == 0x4eu8 && data[3] == 0x47u8,
        png_start_spec(data, r),
    ensures
        r == 0,
{
    assert(png_magic_at(data, 0));
}

} // verus!
