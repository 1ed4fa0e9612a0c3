//! Character and string helpers shared by the tokenizer and the catalog:
//! ASCII character classes, case mapping, and string equality by view.

use vstd::prelude::*;

verus! {

/// True when `c` is an ASCII decimal digit.
pub open spec fn spec_is_digit(c: char) -> bool {
    '0' <= c && c <= '9'
}

/// True when `c` is an ASCII lowercase letter.
pub open spec fn spec_is_lower(c: char) -> bool {
    'a' <= c && c <= 'z'
}

/// True when `c` is an ASCII uppercase letter.
pub open spec fn spec_is_upper(c: char) -> bool {
    'A' <= c && c <= 'Z'
}

/// True when `c` is an ASCII letter of either case.
pub open spec fn spec_is_alpha(c: char) -> bool {
    spec_is_lower(c) || spec_is_upper(c)
}

/// ASCII lowercase mapping: uppercase letters move down, all else is kept.
pub open spec fn spec_lower(c: char) -> char {
    if spec_is_upper(c) {
        ((c as u8) + 32) as char
    } else {
        c
    }
}

/// ASCII uppercase mapping: lowercase letters move up, all else is kept.
pub open spec fn spec_upper(c: char) -> char {
    if spec_is_lower(c) {
        ((c as u8) - 32) as char
    } else {
        c
    }
}

pub fn is_digit_char(c: char) -> (r: bool)
    ensures
        r == spec_is_digit(c),
{
    '0' <= c && c <= '9'
}

pub fn is_alpha_char(c: char) -> (r: bool)
    ensures
        r == spec_is_alpha(c),
{
    ('a' <= c && c <= 'z') || ('A' <= c && c <= 'Z')
}

pub fn lower_char(c: char) -> (r: char)
    ensures
        r == spec_lower(c),
{
    if 'A' <= c && c <= 'Z' {
        ((c as u8) + 32) as char
    } else {
        c
    }
}

pub fn upper_char(c: char) -> (r: char)
    ensures
        r == spec_upper(c),
{
    if 'a' <= c && c <= 'z' {
        ((c as u8) - 32) as char
    } else {
        c
    }
}

/// A string cleaned for key comparison: every character uppercased the
/// ASCII way, and everything but ASCII letters and digits dropped.
pub open spec fn spec_clean(s: Seq<char>) -> Seq<char>
    decreases s.len(),
{
    if s.len() == 0 {
        Seq::empty()
    } else {
        let c = spec_upper(s.last());
        spec_clean(s.drop_last()) + (if spec_is_upper(c) || spec_is_digit(c) {
            seq![c]
        } else {
            Seq::empty()
        })
    }
}

/// Cleans a query key: uppercases and keeps only ASCII letters and digits.
pub fn clean(s: &str) -> (r: String)
    ensures
        r@ == spec_clean(s@),
{
    let n = s.unicode_len();
    let mut out = String::new();
    for i in 0..n
        invariant
            n == s@.len(),
            out@ == spec_clean(s@.take(i as int)),
    {
        let ghost old_out = out@;
        let c = upper_char(s.get_char(i));
        if ('A' <= c && c <= 'Z') || ('0' <= c && c <= '9') {
            push_char(&mut out, c);
        }
        proof {
            assert(s@.take(i + 1).drop_last() =~= s@.take(i as int));
            assert(s@.take(i + 1).last() == s@[i as int]);
            assert(out@ =~= spec_clean(s@.take(i + 1)));
        }
    }
    proof {
        assert(s@.take(n as int) =~= s@);
    }
    out
}

/// Copies a vector of strings, element for element.
pub fn clone_strings(v: &Vec<String>) -> (r: Vec<String>)
    ensures
        r@ == v@,
        r.deep_view() == v.deep_view(),
{
    let mut out: Vec<String> = Vec::new();
    let n = v.len();
    for i in 0..n
        invariant
            n == v@.len(),
            out@ == v@.take(i as int),
    {
        out.push(v[i].clone());
        proof {
            assert(out@ =~= v@.take(i + 1));
        }
    }
    proof {
        assert(v@.take(n as int) =~= v@);
        assert(out.deep_view() =~= v.deep_view());
    }
    out
}

/// The largest index of a space in `s`, or -1 if there is none.
pub open spec fn spec_last_space(s: Seq<char>) -> int
    decreases s.len(),
{
    if s.len() == 0 {
        -1
    } else if s.last() == ' ' {
        s.len() - 1
    } else {
        spec_last_space(s.drop_last())
    }
}

pub proof fn lemma_last_space_bounds(s: Seq<char>)
    ensures
        -1 <= spec_last_space(s) < s.len(),
        spec_last_space(s) >= 0 ==> s[spec_last_space(s)] == ' ',
        forall|j: int| spec_last_space(s) < j < s.len() ==> s[j] != ' ',
    decreases s.len(),
{
    if s.len() > 0 && s.last() != ' ' {
        lemma_last_space_bounds(s.drop_last());
        assert forall|j: int| spec_last_space(s) < j < s.len() implies s[j] != ' ' by {
            if j < s.len() - 1 {
                assert(s.drop_last()[j] == s[j]);
            }
        }
    }
}

/// A description shortened for display: one of at most 135 characters is
/// kept whole; a longer one is cut to its first 131 characters, broken at
/// the last space among them where one exists, with `" ..."` appended.
pub open spec fn spec_shortened(d: Seq<char>) -> Seq<char> {
    if d.len() <= 135 {
        d
    } else {
        let prefix = d.take(131);
        let cut = if spec_last_space(prefix) >= 0 {
            prefix.take(spec_last_space(prefix))
        } else {
            prefix
        };
        cut + " ..."@
    }
}

/// Shortens a description for display, as `spec_shortened` lays out.
pub fn shorten_description(description: &str) -> (r: String)
    ensures
        r@ == spec_shortened(description@),
{
    let n = description.unicode_len();
    if n <= 135 {
        return description.to_owned();
    }
    let prefix = description.substring_char(0, 131);
    proof {
        assert(prefix@ =~= description@.take(131));
    }
    let mut last_space: usize = 131;
    let mut k: usize = 131;
    while k > 0
        invariant
            k <= 131,
            prefix@.len() == 131,
            prefix@ == description@.take(131),
            last_space == 131 || (k <= last_space && last_space < 131 && prefix@[last_space as int]
                == ' '),
            forall|j: int| k <= j < 131 && prefix@[j] == ' ' ==> last_space != 131 && j <= last_space,
        decreases k,
    {
        k = k - 1;
        if last_space == 131 && prefix.get_char(k) == ' ' {
            last_space = k;
        }
    }
    proof {
        lemma_last_space_bounds(prefix@);
        if last_space == 131 {
            assert(spec_last_space(prefix@) == -1) by {
                if spec_last_space(prefix@) >= 0 {
                    assert(prefix@[spec_last_space(prefix@)] == ' ');
                }
            }
        } else {
            assert(spec_last_space(prefix@) == last_space as int) by {
                if spec_last_space(prefix@) > last_space as int {
                    assert(prefix@[spec_last_space(prefix@)] == ' ');
                }
            }
        }
    }
    let mut out = if last_space == 131 {
        let whole = prefix.to_owned();
        whole
    } else {
        let cut = prefix.substring_char(0, last_space);
        proof {
            assert(cut@ =~= prefix@.take(last_space as int));
        }
        cut.to_owned()
    };
    out.append(" ...");
    out
}

/// Relies on `String::push`: appends one character to the string.
#[verifier::external_body]
pub fn push_char(s: &mut String, c: char)
    ensures
        final(s)@ == old(s)@.push(c),
{
    s.push(c)
}

/// String equality decided character by character, so that contracts can
/// speak of it as equality of views.
pub fn str_eq(a: &str, b: &str) -> (r: bool)
    ensures
        r == (a@ == b@),
{
    let a_len = a.unicode_len();
    let b_len = b.unicode_len();
    if a_len != b_len {
        return false;
    }
    for i in 0..a_len
        invariant
            a_len == a@.len(),
            a_len == b@.len(),
            forall|j: int| 0 <= j < i ==> a@[j] == b@[j],
    {
        if a.get_char(i) != b.get_char(i) {
            return false;
        }
    }
    proof {
        assert(a@ =~= b@);
    }
    true
}

/// The characters of `s`, as a vector.
pub fn chars_of(s: &str) -> (r: Vec<char>)
    ensures
        r@ == s@,
{
    let n = s.unicode_len();
    let mut out: Vec<char> = Vec::new();
    for i in 0..n
        invariant
            n == s@.len(),
            out@ == s@.take(i as int),
    {
        out.push(s.get_char(i));
        proof {
            assert(out@ =~= s@.take(i + 1));
        }
    }
    proof {
        assert(s@.take(n as int) =~= s@);
    }
    out
}

/// A string with the given characters.
pub fn string_of(cs: &Vec<char>) -> (r: String)
    ensures
        r@ == cs@,
{
    let mut out = String::new();
    let n = cs.len();
    for i in 0..n
        invariant
            n == cs@.len(),
            out@ == cs@.take(i as int),
    {
        push_char(&mut out, cs[i]);
        proof {
            assert(out@ =~= cs@.take(i + 1));
        }
    }
    proof {
        assert(cs@.take(n as int) =~= cs@);
    }
    out
}

} // verus!
