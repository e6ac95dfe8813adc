//! Archive entry names.
//!
//! Every per-window entry lives under `echtvar/<chromosome>/<window>/`,
//! where `<window>` is the window index (the position divided by
//! `WINDOW_SIZE`) written in decimal.

use vstd::prelude::*;

use vstd::string::StringExecFns;

verus! {

/// The decimal digit character of `d` (0 <= d <= 9).
pub open spec fn digit_char(d: nat) -> char {
    if d == 0 {
        '0'
    } else if d == 1 {
        '1'
    } else if d == 2 {
        '2'
    } else if d == 3 {
        '3'
    } else if d == 4 {
        '4'
    } else if d == 5 {
        '5'
    } else if d == 6 {
        '6'
    } else if d == 7 {
        '7'
    } else if d == 8 {
        '8'
    } else {
        '9'
    }
}

/// The decimal digits of `n`, most significant first, no leading zeros
/// (a lone zero for 0).
pub open spec fn dec_spec(n: nat) -> Seq<char>
    decreases n,
{
    if n < 10 {
        seq![digit_char(n)]
    } else {
        dec_spec(n / 10).push(digit_char(n % 10))
    }
}

/// One decimal digit as a string.
fn digit_str(d: u32) -> (s: &'static str)
    requires
        d < 10,
    ensures
        s@ == seq![digit_char(d as nat)],
{
    let s: &'static str = if d == 0 {
        "0"
    } else if d == 1 {
        "1"
    } else if d == 2 {
        "2"
    } else if d == 3 {
        "3"
    } else if d == 4 {
        "4"
    } else if d == 5 {
        "5"
    } else if d == 6 {
        "6"
    } else if d == 7 {
        "7"
    } else if d == 8 {
        "8"
    } else {
        "9"
    };
    proof {
        reveal_strlit("0");
        reveal_strlit("1");
        reveal_strlit("2");
        reveal_strlit("3");
        reveal_strlit("4");
        reveal_strlit("5");
        reveal_strlit("6");
        reveal_strlit("7");
        reveal_strlit("8");
        reveal_strlit("9");
        assert(s@ =~= seq![digit_char(d as nat)]);
    }
    s
}

/// `n` written in decimal.
pub fn u32_to_dec(n: u32) -> (s: String)
    ensures
        s@ == dec_spec(n as nat),
    decreases n,
{
    if n < 10 {
        digit_str(n).to_owned()
    } else {
        let mut s = u32_to_dec(n / 10);
        s.append(digit_str(n % 10));
        proof {
            assert(s@ =~= dec_spec(n as nat));
        }
        s
    }
}

/// The directory of a window's entries: `echtvar/<chromosome>/<w>/`.
pub open spec fn window_dir_spec(chrom: Seq<char>, w: u32) -> Seq<char> {
    "echtvar/"@ + chrom + "/"@ + dec_spec(w as nat) + "/"@
}

/// The full name of one of a window's entries.
pub open spec fn entry_path_spec(chrom: Seq<char>, w: u32, file: Seq<char>) -> Seq<char> {
    window_dir_spec(chrom, w) + file
}

/// Build the name of the entry `file` of chromosome `chrom`'s window
/// with index `w`.
pub fn entry_path(chrom: &str, w: u32, file: &str) -> (s: String)
    ensures
        s@ == entry_path_spec(chrom@, w, file@),
{
    let mut s = "echtvar/".to_owned();
    s.append(chrom);
    s.append("/");
    let d = u32_to_dec(w);
    s.append(d.as_str());
    s.append("/");
    s.append(file);
    proof {
        assert(s@ =~= entry_path_spec(chrom@, w, file@));
    }
    s
}

} // verus!
