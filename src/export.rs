//! The file name under which a process snapshot is exported.
use vstd::prelude::*;
use crate::text::digit_char;

verus! {

/// A local date and time of day, as the export name records it.
#[derive(Clone, Copy, Debug, PartialEq, Eq, Structural)]
pub struct Stamp {
    pub year: u32,
    pub month: u32,
    pub day: u32,
    pub hour: u32,
    pub minute: u32,
    pub second: u32,
}

/// The last `width` decimal digits of `n`, zero-padded on the left.
pub open spec fn padded(n: nat, width: nat) -> Seq<char>
    decreases width,
{
    if width == 0 {
        Seq::empty()
    } else {
        padded(n / 10, (width - 1) as nat).push(digit_char(n % 10))
    }
}

/// `processes_<YYYYMMDD_HHMMSS>.<ext>` for the given stamp.
pub open spec fn export_name(t: Stamp, ext: Seq<char>) -> Seq<char> {
    seq!['p', 'r', 'o', 'c', 'e', 's', 's', 'e', 's', '_'] + padded(t.year as nat, 4) + padded(
        t.month as nat,
        2,
    ) + padded(t.day as nat, 2) + seq!['_'] + padded(t.hour as nat, 2) + padded(t.minute as nat, 2)
        + padded(t.second as nat, 2) + seq!['.'] + ext
}

/// The one-character text of a decimal digit.
fn digit_text(d: u32) -> (r: &'static str)
    requires
        d < 10,
    ensures
        r@ == seq![digit_char(d as nat)],
{
    let r = match d {
        0 => "0",
        1 => "1",
        2 => "2",
        3 => "3",
        4 => "4",
        5 => "5",
        6 => "6",
        7 => "7",
        8 => "8",
        _ => "9",
    };
    proof {
        reveal_strlit("0");
        reveal_strlit("1");
        reveal_strlit("2");
        reveal_strlit("3");
        reveal_strlit("4");
        reveal_strlit("5");
        reveal_strlit("6");
        reveal_strlit("7");
        reveal_strlit("8");
        reveal_strlit("9");
    }
    assert(r@ =~= seq![digit_char(d as nat)]);
    r
}

/// Appends the last `width` digits of `n`, zero-padded.
fn append_padded(s: &mut String, n: u32, width: u32)
    ensures
        final(s)@ == old(s)@ + padded(n as nat, width as nat),
    decreases width,
{
    if width > 0 {
        append_padded(s, n / 10, width - 1);
        s.append(digit_text(n % 10));
        assert(final(s)@ =~= old(s)@ + padded(n as nat, width as nat));
    } else {
        assert(old(s)@ + padded(n as nat, 0) =~= old(s)@);
    }
}

/// The name an export of the process snapshot taken at `t` is written under.
pub fn export_file_name(t: Stamp, ext: &str) -> (r: String)
    ensures
        r@ == export_name(t, ext@),
{
    let mut s = String::from_str("processes_");
    proof {
        reveal_strlit("processes_");
        reveal_strlit("_");
        reveal_strlit(".");
    }
    append_padded(&mut s, t.year, 4);
    append_padded(&mut s, t.month, 2);
    append_padded(&mut s, t.day, 2);
    s.append("_");
    append_padded(&mut s, t.hour, 2);
    append_padded(&mut s, t.minute, 2);
    append_padded(&mut s, t.second, 2);
    s.append(".");
    s.append(ext);
    assert(s@ =~= export_name(t, ext@));
    s
}

} // verus!
