//! Small text helpers: moving between `String` and character vectors,
//! and the masking of task texts while a working session is active.
use vstd::prelude::*;
use vstd::string::StrSliceExecFns;

verus! {

/// Relies on `String`'s `FromIterator` over `char`: the collected
/// string holds exactly the characters of the vector, in order.
#[verifier::external_body]
pub fn chars_to_string(v: &Vec<char>) -> (r: String)
    ensures
        r@ == v@,
{
    v.iter().collect()
}

/// The characters of `s`, as a vector.
pub fn string_to_chars(s: &str) -> (v: Vec<char>)
    ensures
        v@ == s@,
{
    let n = s.unicode_len();
    let mut v: Vec<char> = Vec::new();
    let mut i: usize = 0;
    while i < n
        invariant
            n == s@.len(),
            i <= n,
            v@ =~= s@.subrange(0, i as int),
        decreases n - i,
    {
        v.push(s.get_char(i));
        i = i + 1;
        assert(v@ =~= s@.subrange(0, i as int));
    }
    assert(v@ =~= s@);
    v
}

/// A character of a masked task text: spaces stay, everything else
/// becomes a dash.
pub open spec fn hidden_char(c: char) -> char {
    if c == ' ' {
        ' '
    } else {
        '-'
    }
}

/// A task text as shown for the tasks one is not working on: word
/// shapes remain, letters do not.
pub open spec fn hidden_text_spec(s: Seq<char>) -> Seq<char> {
    s.map_values(|c: char| hidden_char(c))
}

/// Masks a task text, keeping only its spaces.
pub fn hidden_text(s: &str) -> (r: String)
    ensures
        r@ == hidden_text_spec(s@),
{
    let n = s.unicode_len();
    let mut v: Vec<char> = Vec::new();
    let mut i: usize = 0;
    while i < n
        invariant
            n == s@.len(),
            i <= n,
            v@ =~= hidden_text_spec(s@).subrange(0, i as int),
        decreases n - i,
    {
        let c = s.get_char(i);
        if c == ' ' {
            v.push(' ');
        } else {
            v.push('-');
        }
        i = i + 1;
        assert(v@ =~= hidden_text_spec(s@).subrange(0, i as int));
    }
    assert(v@ =~= hidden_text_spec(s@));
    chars_to_string(&v)
}

} // verus!
