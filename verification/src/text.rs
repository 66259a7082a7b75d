//! Plain operations on strings that the rest of the library builds on.

use vstd::prelude::*;

verus! {

/// `String::push` appends exactly the given character.
pub assume_specification[ String::push ](s: &mut String, c: char)
    ensures
        final(s)@ == old(s)@.push(c),
;

/// `String::pop` removes the last character and returns it, or returns `None`
/// and leaves the string alone when it is empty.
pub assume_specification[ String::pop ](s: &mut String) -> (c: Option<char>)
    ensures
        old(s)@.len() == 0 ==> c is None && final(s)@ == old(s)@,
        old(s)@.len() > 0 ==> c == Some(old(s)@.last()) && final(s)@ == old(s)@.drop_last(),
;

/// The characters of `s`, in order.
pub fn characters(s: &str) -> (v: Vec<char>)
    ensures
        v@ == s@,
{
    let mut v: Vec<char> = Vec::new();
    for c in it: s.chars()
        invariant
            it.seq() == s@,
            v@ == it.seq().take(it.index()),
    {
        v.push(c);
    }
    v
}

/// What is left of a line once its terminator is taken off: a final line feed
/// goes, and with it a carriage return that stands directly before it.
pub open spec fn without_terminator(line: Seq<char>) -> Seq<char> {
    if line.len() > 0 && line.last() == '\n' {
        let body = line.drop_last();
        if body.len() > 0 && body.last() == '\r' {
            body.drop_last()
        } else {
            body
        }
    } else {
        line
    }
}

/// Strips the line terminator (`"\n"` or `"\r\n"`) from the end of `s`, if there is one.
pub fn remove_crlf(s: &mut String)
    ensures
        final(s)@ == without_terminator(old(s)@),
{
    match s.pop() {
        Some(last) => {
            if last == '\n' {
                match s.pop() {
                    Some(before) => {
                        if before != '\r' {
                            s.push(before);
                            assert(s@ =~= old(s)@.drop_last());
                        }
                    },
                    None => {},
                }
            } else {
                s.push(last);
                assert(s@ =~= old(s)@);
            }
        },
        None => {},
    }
}

} // verus!
