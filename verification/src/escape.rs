//! HTML escaping of the text that a menu carries.

use vstd::prelude::*;

verus! {

/// What one character becomes inside HTML text: the five characters that
/// have a meaning in markup turn into entities, every other one stays.
pub open spec fn escaped_char(c: char) -> Seq<char> {
    if c == '<' {
        "&lt;"@
    } else if c == '>' {
        "&gt;"@
    } else if c == '&' {
        "&amp;"@
    } else if c == '"' {
        "&quot;"@
    } else if c == '\'' {
        "&#x27;"@
    } else {
        seq![c]
    }
}

/// The text with every character replaced by `escaped_char` of it, in order.
pub open spec fn html_escaped(text: Seq<char>) -> Seq<char>
    decreases text.len(),
{
    if text.len() == 0 {
        Seq::empty()
    } else {
        html_escaped(text.drop_last()) + escaped_char(text.last())
    }
}

/// Trusted: the HTML escaper of `askama` (`MarkupDisplay::new_unsafe` with
/// the `Html` escaper, written out through `Display`). Its source copies the
/// input byte for byte, except that `<`, `>`, `&`, `"` and `'` are written as
/// `&lt;`, `&gt;`, `&amp;`, `&quot;` and `&#x27;`; the contract says exactly
/// that, and Verus takes it on faith.
#[verifier::external_body]
pub(crate) fn escape_markup(text: &str) -> (r: String)
    ensures
        r@ == html_escaped(text@),
{
    askama::MarkupDisplay::new_unsafe(text, askama::Html).to_string()
}

/// Escapes `text` for use inside HTML.
pub fn escape_html(text: &str) -> (r: String)
    ensures
        r@ == html_escaped(text@),
        (r@.len() == 0) == (text@.len() == 0),
{
    proof {
        lemma_escaped_nonempty(text@);
    }
    escape_markup(text)
}

/// Escaping never empties a character and never invents text: the result
/// is empty exactly when the input is.
pub proof fn lemma_escaped_nonempty(text: Seq<char>)
    ensures
        (html_escaped(text).len() == 0) == (text.len() == 0),
    decreases text.len(),
{
    if text.len() > 0 {
        reveal_strlit("&lt;");
        reveal_strlit("&gt;");
        reveal_strlit("&amp;");
        reveal_strlit("&quot;");
        reveal_strlit("&#x27;");
        assert(escaped_char(text.last()).len() > 0);
    }
}

} // verus!
