//! Decides where two adjacent tokens must be kept apart by a space so that
//! the shader lexer does not read them as one.

use vstd::prelude::*;

verus! {

/// The characters that can never be part of an identifier.
pub open spec fn is_non_identifier(c: char) -> bool {
    ||| c == '(' || c == ')' || c == '{' || c == '}' || c == '[' || c == ']'
    ||| c == '<' || c == '>' || c == ',' || c == '+' || c == '*' || c == '/'
    ||| c == '!' || c == '\\' || c == '"' || c == '\'' || c == '|' || c == '='
    ||| c == '^' || c == '&' || c == ';' || c == ':' || c == '?' || c == '%'
    ||| c == '@' || c == '#' || c == '~' || c == '.' || c == '\u{a3}' || c == '$'
    ||| c == '`'
}

/// Whether a space separates a token starting with `next` from text ending
/// with `last`. The clauses are tried in order and the first that applies
/// decides.
pub open spec fn needs_space(last: char, next: char) -> bool {
    if last == '-' && next == '>' {
        false
    } else if is_non_identifier(last) && next == '=' {
        false
    } else if last == next && is_non_identifier(next) {
        false
    } else if last == ':' || next == ':' {
        false
    } else if is_non_identifier(last) || is_non_identifier(next) {
        false
    } else {
        true
    }
}

/// Returns true only if the given character cannot be in an identifier.
/// Returning false gives no information.
pub fn non_identifier_char(c: char) -> (r: bool)
    ensures
        r == is_non_identifier(c),
{
    match c {
        '(' | ')' | '{' | '}' | '[' | ']' | '<' | '>' | ',' | '+' | '*' | '/' | '!' | '\\'
        | '"' | '\'' | '|' | '=' | '^' | '&' | ';' | ':' | '?' | '%' | '@' | '#' | '~' | '.'
        | '\u{a3}' | '$' | '`' => true,
        _ => false,
    }
}

/// Returns true if the two tokens should be separated by a space within
/// shader source code.
pub fn should_add_space_between(last: char, next: char) -> (r: bool)
    ensures
        r == needs_space(last, next),
{
    if last == '-' && next == '>' {
        return false;  // an arrow such as `->` written as two tokens
    }
    if non_identifier_char(last) && next == '=' {
        return false;  // a comparison or assignment such as `>=`, `!=` or `==`
    }
    if last == next && non_identifier_char(next) {
        return false;  // a doubled operator such as `++`
    }
    if last == ':' || next == ':' {
        return false;  // a path such as `a::b`
    }
    if non_identifier_char(last) || non_identifier_char(next) {
        return false;  // punctuation never fuses with its neighbour
    }
    true
}

/// Taken together the clauses put a space exactly between two characters
/// of which neither is in the table of non-identifier characters.
pub proof fn lemma_space_iff_both_identifier_chars(last: char, next: char)
    ensures
        needs_space(last, next) <==> !is_non_identifier(last) && !is_non_identifier(next),
{
}

} // verus!
