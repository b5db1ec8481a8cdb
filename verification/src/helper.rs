use vstd::prelude::*;

use crate::text::{push_char, str_to_chars};

verus! {

/// Is `c` one of the Unicode white-space characters?
pub open spec fn is_space(c: char) -> bool {
    ||| 0x9 <= c as u32 <= 0xd
    ||| c as u32 == 0x20
    ||| c as u32 == 0x85
    ||| c as u32 == 0xa0
    ||| c as u32 == 0x1680
    ||| 0x2000 <= c as u32 <= 0x200a
    ||| c as u32 == 0x2028
    ||| c as u32 == 0x2029
    ||| c as u32 == 0x202f
    ||| c as u32 == 0x205f
    ||| c as u32 == 0x3000
}

/// Decides `is_space`.
fn is_space_char(c: char) -> (r: bool)
    ensures
        r == is_space(c),
{
    let u = c as u32;
    (0x9 <= u && u <= 0xd) || u == 0x20 || u == 0x85 || u == 0xa0 || u == 0x1680 || (0x2000 <= u
        && u <= 0x200a) || u == 0x2028 || u == 0x2029 || u == 0x202f || u == 0x205f || u == 0x3000
}

/// The words of `s` joined by single spaces: white space at either end is
/// dropped, and every run of white space between words becomes one space.
pub open spec fn spec_trim(s: Seq<char>) -> Seq<char>
    decreases s.len(),
{
    if s.len() == 0 {
        Seq::empty()
    } else {
        let r = spec_trim(s.drop_last());
        let c = s.last();
        if is_space(c) {
            r
        } else if r.len() > 0 && is_space(s[s.len() - 2]) {
            r.push(' ').push(c)
        } else {
            r.push(c)
        }
    }
}

/// Collapses every run of white space to a single space and trims the ends.
pub fn trim_whitespace(input: &str) -> (r: String)
    ensures
        r@ == spec_trim(input@),
{
    let v = str_to_chars(input);
    let n = v.len();
    let mut r = String::new();
    let mut has_content = false;
    let mut i: usize = 0;
    while i < n
        invariant
            0 <= i <= n == v@.len(),
            v@ == input@,
            r@ == spec_trim(input@.take(i as int)),
            has_content == (r@.len() > 0),
        decreases n - i,
    {
        proof {
            assert(input@.take(i + 1 as int).drop_last() =~= input@.take(i as int));
            assert(input@.take(i + 1 as int).last() == input@[i as int]);
        }
        let c = v[i];
        if !is_space_char(c) {
            if has_content && is_space_char(v[i - 1]) {
                push_char(&mut r, ' ');
            }
            push_char(&mut r, c);
            has_content = true;
        }
        i = i + 1;
    }
    proof {
        assert(input@.take(n as int) =~= input@);
    }
    r
}

} // verus!
