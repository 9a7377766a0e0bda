//! Decoding of URL query values.
use vstd::prelude::*;
use vstd::string::StrSliceExecFns;

verus! {

/// The value of `c` as a hexadecimal digit, either case.
pub open spec fn hex_value(c: char) -> Option<u32> {
    if '0' <= c && c <= '9' {
        Some((c as u32 - '0' as u32) as u32)
    } else if 'a' <= c && c <= 'f' {
        Some((c as u32 - 'a' as u32 + 10) as u32)
    } else if 'A' <= c && c <= 'F' {
        Some((c as u32 - 'A' as u32 + 10) as u32)
    } else {
        None
    }
}

/// `s` decoded: `+` is a space; `%` followed by two hex digits is the character
/// with that code; a `%` not followed by two hex digits stays, and the (at most
/// two) characters after it are dropped.
pub open spec fn url_decoded(s: Seq<char>) -> Seq<char>
    decreases s.len(),
{
    if s.len() == 0 {
        Seq::empty()
    } else if s[0] == '%' {
        if s.len() < 3 {
            seq!['%']
        } else if hex_value(s[1]) is Some && hex_value(s[2]) is Some {
            seq![(hex_value(s[1])->0 * 16 + hex_value(s[2])->0) as char] + url_decoded(
                s.subrange(3, s.len() as int),
            )
        } else {
            seq!['%'] + url_decoded(s.subrange(3, s.len() as int))
        }
    } else if s[0] == '+' {
        seq![' '] + url_decoded(s.subrange(1, s.len() as int))
    } else {
        seq![s[0]] + url_decoded(s.subrange(1, s.len() as int))
    }
}

/// The value of a hexadecimal digit.
pub fn hex_digit(c: char) -> (r: Option<u32>)
    ensures
        r == hex_value(c),
{
    if '0' <= c && c <= '9' {
        Some(c as u32 - '0' as u32)
    } else if 'a' <= c && c <= 'f' {
        Some(c as u32 - 'a' as u32 + 10)
    } else if 'A' <= c && c <= 'F' {
        Some(c as u32 - 'A' as u32 + 10)
    } else {
        None
    }
}

/// Relies on `String::push`: appends one character.
#[verifier::external_body]
fn push_char(s: &mut String, c: char)
    ensures
        final(s)@ == old(s)@.push(c),
{
    s.push(c)
}

/// Decodes a URL query value (see `url_decoded`).
pub fn url_decode(s: &str) -> (r: String)
    ensures
        r@ == url_decoded(s@),
{
    let mut result = String::new();
    let n = s.unicode_len();
    let mut i: usize = 0;
    assert(s@.subrange(0, n as int) =~= s@);
    assert(result@ + url_decoded(s@) =~= url_decoded(s@));
    while i < n
        invariant
            n == s@.len(),
            i <= n,
            result@ + url_decoded(s@.subrange(i as int, n as int)) == url_decoded(s@),
        decreases n - i,
    {
        let ghost rest = s@.subrange(i as int, n as int);
        let c = s.get_char(i);
        if c == '%' {
            if n - i > 2 {
                let h = s.get_char(i + 1);
                let l = s.get_char(i + 2);
                match (hex_digit(h), hex_digit(l)) {
                    (Some(hv), Some(lv)) => {
                        let code: u8 = (hv * 16 + lv) as u8;
                        push_char(&mut result, code as char);
                    },
                    _ => {
                        push_char(&mut result, '%');
                    },
                }
                assert(rest.subrange(3, rest.len() as int) =~= s@.subrange(i + 3, n as int));
                i += 3;
            } else {
                push_char(&mut result, '%');
                assert(url_decoded(rest) == seq!['%']);
                assert(s@.subrange(n as int, n as int) =~= Seq::<char>::empty());
                i = n;
            }
        } else {
            if c == '+' {
                push_char(&mut result, ' ');
            } else {
                push_char(&mut result, c);
            }
            assert(rest.subrange(1, rest.len() as int) =~= s@.subrange(i + 1, n as int));
            i += 1;
        }
        assert(result@ + url_decoded(s@.subrange(i as int, n as int)) =~= url_decoded(s@));
    }
    assert(s@.subrange(n as int, n as int) =~= Seq::<char>::empty());
    assert(result@ + Seq::<char>::empty() =~= result@);
    result
}

} // verus!
