//! Small helpers for command names.

use vstd::prelude::*;

verus! {

/// A bare command name made explicit: `./name` unless the prefix is already
/// there.
pub open spec fn fixed_filename(s: Seq<char>) -> Seq<char> {
    if s.len() >= 2 && s[0] == '.' && s[1] == '/' {
        s
    } else {
        "./"@ + s
    }
}

/// Prefix a bare command name with `./` so that it is found in the working
/// directory rather than on the search path.  A name that already carries the
/// prefix is left alone.
pub fn fix_unix_filename(filename: &str) -> (r: String)
    ensures
        r@ == fixed_filename(filename@),
{
    let n = filename.unicode_len();
    if n >= 2 {
        let c0 = filename.get_char(0);
        let c1 = filename.get_char(1);
        if c0 == '.' && c1 == '/' {
            return filename.to_owned();
        }
    }
    let prefix: String = String::from_str("./");
    prefix.concat(filename)
}

/// Character-for-character string equality.
pub fn str_eq(a: &str, b: &str) -> (r: bool)
    ensures
        r == (a@ == b@),
{
    let na = a.unicode_len();
    let nb = b.unicode_len();
    if na != nb {
        proof {
            assert(a@ != b@);
        }
        return false;
    }
    let mut i: usize = 0;
    while i < na
        invariant
            0 <= i <= na,
            na == a@.len(),
            na == b@.len(),
            forall|j: int| 0 <= j < i ==> a@[j] == b@[j],
        decreases na - i,
    {
        if a.get_char(i) != b.get_char(i) {
            proof {
                assert(a@[i as int] != b@[i as int]);
            }
            return false;
        }
        i = i + 1;
    }
    proof {
        assert(a@ =~= b@);
    }
    true
}

/// Whether `v` holds `x`.
pub fn contains_usize(v: &Vec<usize>, x: usize) -> (r: bool)
    ensures
        r == v@.contains(x),
{
    let mut i: usize = 0;
    while i < v.len()
        invariant
            0 <= i <= v@.len(),
            forall|j: int| 0 <= j < i ==> v@[j] != x,
        decreases v@.len() - i,
    {
        if v[i] == x {
            return true;
        }
        i = i + 1;
    }
    proof {
        assert(!v@.contains(x));
    }
    false
}

/// The character for one decimal digit.
pub open spec fn char_of_digit(d: int) -> char {
    ((48 + d) as u8) as char
}

/// The decimal digits of `n`, most significant first.
pub open spec fn dec_chars(n: nat) -> Seq<char>
    decreases n,
{
    if n < 10 {
        seq![char_of_digit(n as int)]
    } else {
        dec_chars(n / 10) + seq![char_of_digit((n % 10) as int)]
    }
}

fn digit_str(d: u8) -> (r: &'static str)
    requires
        d < 10,
    ensures
        r@ =~= seq![char_of_digit(d as int)],
{
    proof {
        reveal_strlit("0");
        reveal_strlit("1");
        reveal_strlit("2");
        reveal_strlit("3");
        reveal_strlit("4");
        reveal_strlit("5");
        reveal_strlit("6");
        reveal_strlit("7");
        reveal_strlit("8");
        reveal_strlit("9");
    }
    match d {
        0 => "0",
        1 => "1",
        2 => "2",
        3 => "3",
        4 => "4",
        5 => "5",
        6 => "6",
        7 => "7",
        8 => "8",
        _ => "9",
    }
}

/// Render `n` in decimal.
pub fn decimal_string(n: u64) -> (r: String)
    ensures
        r@ == dec_chars(n as nat),
    decreases n,
{
    if n < 10 {
        digit_str(n as u8).to_owned()
    } else {
        let mut s = decimal_string(n / 10);
        s.append(digit_str((n % 10) as u8));
        proof {
            assert(s@ =~= dec_chars(n as nat));
        }
        s
    }
}

/// A test's name: its one-based index, zero-padded to three places.
pub open spec fn test_name_chars(n: nat) -> Seq<char> {
    if n < 10 {
        seq!['0', '0'] + dec_chars(n)
    } else if n < 100 {
        seq!['0'] + dec_chars(n)
    } else {
        dec_chars(n)
    }
}

/// Render a test's zero-padded name.
pub fn test_name_string(n: u64) -> (r: String)
    ensures
        r@ == test_name_chars(n as nat),
{
    proof {
        reveal_strlit("00");
        reveal_strlit("0");
        reveal_strlit("");
    }
    let pad: &'static str = if n < 10 {
        "00"
    } else if n < 100 {
        "0"
    } else {
        ""
    };
    let mut s = pad.to_owned();
    let d = decimal_string(n);
    s.append(d.as_str());
    proof {
        assert(s@ =~= test_name_chars(n as nat));
    }
    s
}

/// A command given as a single word is a program in the working directory:
/// make its name explicit.  Longer command vectors are interpreters with
/// arguments and are left alone.
pub fn fix_unix_filename_vec(filename_vec: &mut Vec<String>)
    ensures
        old(filename_vec)@.len() != 1 ==> final(filename_vec)@ == old(filename_vec)@,
        old(filename_vec)@.len() == 1 ==> final(filename_vec)@.len() == 1
            && final(filename_vec)@[0]@ == fixed_filename(old(filename_vec)@[0]@),
{
    if filename_vec.len() == 1 {
        let fixed = fix_unix_filename(filename_vec[0].as_str());
        filename_vec.set(0, fixed);
    }
}

} // verus!
