//! One step of an interactive session: from a line of input to the reply.

use vstd::prelude::*;
use crate::number::{parse_number, parsed};
use crate::prime::{is_prime, prime};
use crate::text::{chars_of, trim, trimmed};

verus! {

/// What a line of input is answered with.
#[derive(Debug, Clone, Copy, PartialEq, Eq, Structural)]
pub enum Reply {
    /// The line asks to end the session.
    Quit,
    /// The line is neither the word that ends the session nor a number.
    Invalid,
    /// The line holds this number, which is prime.
    Prime(u64),
    /// The line holds this number, which is not prime.
    NotPrime(u64),
}

/// The lower-case form of an ASCII capital letter; any other character
/// itself.
pub open spec fn ascii_lower(c: char) -> char {
    if 'A' <= c <= 'Z' {
        ((c as u32) + 32) as char
    } else {
        c
    }
}

/// Whether `s` is the word `exit`, in capital or small ASCII letters.
pub open spec fn exit_word(s: Seq<char>) -> bool {
    &&& s.len() == 4
    &&& ascii_lower(s[0]) == 'e'
    &&& ascii_lower(s[1]) == 'x'
    &&& ascii_lower(s[2]) == 'i'
    &&& ascii_lower(s[3]) == 't'
}

/// The reply to a line of input. White space around the line's content does
/// not count. The word `exit` ends the session, a numeral is answered with
/// whether its number is prime, and anything else is invalid.
pub open spec fn reply_to(line: Seq<char>) -> Reply {
    let word = trim(line);
    if exit_word(word) {
        Reply::Quit
    } else {
        match parsed(word) {
            Err(_) => Reply::Invalid,
            Ok(n) => if prime(n as nat) {
                Reply::Prime(n)
            } else {
                Reply::NotPrime(n)
            },
        }
    }
}

/// Decides whether `c` is the letter `letter`, small or capital. `letter` is
/// a small ASCII letter.
fn is_letter(c: char, letter: char) -> (r: bool)
    requires
        'a' <= letter <= 'z',
    ensures
        r == (ascii_lower(c) == letter),
{
    c == letter || (c as u32) + 32 == letter as u32
}

/// Decides whether `word` is the word that ends the session.
pub fn is_exit(word: &[char]) -> (r: bool)
    ensures
        r == exit_word(word@),
{
    word.len() == 4 && is_letter(word[0], 'e') && is_letter(word[1], 'x') && is_letter(word[2], 'i')
        && is_letter(word[3], 't')
}

/// Answers one line of input.
pub fn respond(line: &str) -> (r: Reply)
    ensures
        r == reply_to(line@),
{
    let chars = chars_of(line);
    let word = trimmed(chars.as_slice());
    if is_exit(word) {
        return Reply::Quit;
    }
    match parse_number(word) {
        Err(_) => Reply::Invalid,
        Ok(n) => if is_prime(n) {
            Reply::Prime(n)
        } else {
            Reply::NotPrime(n)
        },
    }
}

} // verus!
