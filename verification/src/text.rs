//! Small text helpers shared by the compiler passes and the runtime:
//! string comparison and the decimal rendering used by `display`.

use vstd::prelude::*;
use vstd::string::StringExecFns;

verus! {

/// Compares two string slices by their character sequences.
pub fn str_eq(a: &str, b: &str) -> (r: bool)
    ensures
        r == (a@ == b@),
{
    let sa: String = a.to_owned();
    let sb: String = b.to_owned();
    sa == sb
}

/// The decimal digit character for a value below ten.
pub open spec fn digit_char(d: nat) -> Seq<char> {
    if d == 0 {
        "0"@
    } else if d == 1 {
        "1"@
    } else if d == 2 {
        "2"@
    } else if d == 3 {
        "3"@
    } else if d == 4 {
        "4"@
    } else if d == 5 {
        "5"@
    } else if d == 6 {
        "6"@
    } else if d == 7 {
        "7"@
    } else if d == 8 {
        "8"@
    } else {
        "9"@
    }
}

/// The decimal rendering of a natural number, most significant digit first.
pub open spec fn decimal_of_nat(n: nat) -> Seq<char>
    decreases n,
{
    if n < 10 {
        digit_char(n)
    } else {
        decimal_of_nat(n / 10) + digit_char(n % 10)
    }
}

/// The textual form of a 32-bit integer: a minus sign for negative values,
/// then the decimal digits of the magnitude.
pub open spec fn decimal_of_i32(v: i32) -> Seq<char> {
    if v < 0 {
        "-"@ + decimal_of_nat((-(v as int)) as nat)
    } else {
        decimal_of_nat(v as nat)
    }
}

/// The textual form of a boolean.
pub open spec fn bool_text(b: bool) -> Seq<char> {
    if b {
        "true"@
    } else {
        "false"@
    }
}

fn digit_str(d: u32) -> (r: &'static str)
    requires
        d < 10,
    ensures
        r@ == digit_char(d as nat),
{
    if d == 0 {
        "0"
    } else if d == 1 {
        "1"
    } else if d == 2 {
        "2"
    } else if d == 3 {
        "3"
    } else if d == 4 {
        "4"
    } else if d == 5 {
        "5"
    } else if d == 6 {
        "6"
    } else if d == 7 {
        "7"
    } else if d == 8 {
        "8"
    } else {
        "9"
    }
}

fn nat_to_string(n: u32) -> (r: String)
    ensures
        r@ == decimal_of_nat(n as nat),
    decreases n,
{
    if n < 10 {
        digit_str(n).to_owned()
    } else {
        let prefix = nat_to_string(n / 10);
        prefix.concat(digit_str(n % 10))
    }
}

/// Renders a 32-bit integer in decimal, as `display` prints it.
pub fn render_i32(v: i32) -> (r: String)
    ensures
        r@ == decimal_of_i32(v),
{
    if v >= 0 {
        nat_to_string(v as u32)
    } else {
        let mag: u32 = (-(v as i64)) as u32;
        let s: String = "-".to_owned();
        s.concat(nat_to_string(mag).as_str())
    }
}

/// A string with every backslash-n pair replaced by a newline character,
/// scanning left to right; a lone trailing backslash stays as it is.
pub open spec fn unescape_newlines(s: Seq<char>) -> Seq<char>
    decreases s.len(),
{
    if s.len() == 0 {
        Seq::empty()
    } else if s.len() >= 2 && s[0] == '\\' && s[1] == 'n' {
        seq!['\n'] + unescape_newlines(s.skip(2))
    } else {
        seq![s[0]] + unescape_newlines(s.skip(1))
    }
}

/// Replaces each literal backslash-n in the source text by a newline, as
/// string constants are unescaped before materialization.
pub fn escape_newlines(s: &str) -> (r: String)
    ensures
        r@ == unescape_newlines(s@),
{
    let mut out = String::new();
    let n = s.unicode_len();
    let mut i: usize = 0;
    proof {
        assert(s@.skip(0) =~= s@);
        assert(out@ + unescape_newlines(s@.skip(0)) =~= unescape_newlines(s@));
    }
    while i < n
        invariant
            i <= n,
            n == s@.len(),
            out@ + unescape_newlines(s@.skip(i as int)) == unescape_newlines(s@),
        decreases n - i,
    {
        let ghost rest = s@.skip(i as int);
        proof {
            assert(rest[0] == s@[i as int]);
            if i + 2 <= n {
                assert(rest[1] == s@[i as int + 1]);
                assert(rest.skip(2) =~= s@.skip(i as int + 2));
            }
            assert(rest.skip(1) =~= s@.skip(i as int + 1));
        }
        let c = s.get_char(i);
        if c == '\\' && i + 1 < n && s.get_char(i + 1) == 'n' {
            out.append("\n");
            proof {
                reveal_strlit("\n");
                assert(seq!['\n'] =~= "\n"@);
                assert(out@ + unescape_newlines(s@.skip(i as int + 2)) =~= unescape_newlines(
                    s@,
                ));
            }
            i = i + 2;
        } else {
            let piece = s.substring_char(i, i + 1);
            out.append(piece);
            proof {
                assert(piece@ =~= seq![s@[i as int]]);
                assert(out@ + unescape_newlines(s@.skip(i as int + 1)) =~= unescape_newlines(
                    s@,
                ));
            }
            i = i + 1;
        }
    }
    proof {
        assert(s@.skip(n as int) =~= Seq::<char>::empty());
        assert(out@ =~= unescape_newlines(s@));
    }
    out
}

/// Renders a boolean as `display` prints it.
pub fn render_bool(b: bool) -> (r: String)
    ensures
        r@ == bool_text(b),
{
    if b {
        "true".to_owned()
    } else {
        "false".to_owned()
    }
}

} // verus!
