//! Text normalization for matching item names and units across files:
//! canonical composition, lower case, removal of a leading list marker
//! ("1.1", "a.", "IV.") and white-space collapsing.
use vstd::prelude::*;

use unicode_normalization::UnicodeNormalization;

use crate::text::{
    chars_of, collapse_white_space, collapse_white_space_chars, is_white_space,
    law_collapsed_text_is_single_spaced, lemma_trim_idempotent, single_spaced, string_from_chars, trim, trim_chars,
};

verus! {

/// The pattern of a leading list marker: a dotted number, a roman numeral
/// followed by a dot, or a letter followed by a dot or a parenthesis, with
/// the white space after it.
pub const LIST_MARKER: &'static str = "^(\\d+(\\.\\d+)*|[ivxlc]+\\.|[a-z][\\.\\)])\\s*";

/// The canonical composition (Unicode NFC) of a text.
pub uninterp spec fn nfc_form(s: Seq<char>) -> Seq<char>;

/// The lower-case form of a text, as `str::to_lowercase` gives it.
pub uninterp spec fn lowercase_form(s: Seq<char>) -> Seq<char>;

/// The text with the first match of a regular expression removed, or
/// `None` when the expression does not compile.
pub uninterp spec fn first_match_removed(pattern: Seq<char>, text: Seq<char>) -> Option<Seq<char>>;

/// Calls `UnicodeNormalization::nfc` of the unicode-normalization crate and
/// collects the characters; the result is named by `nfc_form`.
#[verifier::external_body]
fn nfc_of(s: &str) -> (r: String)
    ensures
        r@ == nfc_form(s@),
{
    s.nfc().collect()
}

/// Calls `str::to_lowercase`; the result is named by `lowercase_form`.
#[verifier::external_body]
pub(crate) fn lowercase_of(s: &str) -> (r: String)
    ensures
        r@ == lowercase_form(s@),
{
    s.to_lowercase()
}

/// `c` is surely no Unicode decimal digit (`\\d` in a regular expression
/// matches exactly the characters of category Nd): it lies below '0', or
/// between '9' and U+0660 (the first decimal digit after the ASCII ones), or
/// in the Latin Extended Additional block U+1E00..U+1EFF (letters only).
pub open spec fn surely_not_digit(c: char) -> bool {
    let u = c as u32;
    u < 0x30 || (0x3a <= u && u < 0x660) || (0x1e00 <= u && u <= 0x1eff)
}

/// `c` is one of the letters of a roman-numeral list marker.
pub open spec fn is_roman_letter(c: char) -> bool {
    c == 'i' || c == 'v' || c == 'x' || c == 'l' || c == 'c'
}

/// `t` might begin with a list marker: its first character may be a
/// decimal digit, or it begins with roman-numeral letters and a dot, or
/// with a letter from 'a' to 'z' followed by '.' or ')'.
pub open spec fn may_start_list_marker(t: Seq<char>) -> bool {
    &&& t.len() > 0
    &&& {
        ||| !surely_not_digit(t[0])
        ||| ('a' <= t[0] && t[0] <= 'z' && t.len() > 1 && (t[1] == '.' || t[1] == ')'))
        ||| exists|k: int|
            1 <= k < t.len() && t[k] == '.' && forall|m: int| 0 <= m < k ==> is_roman_letter(#[trigger] t[m])
    }
}

/// `a` is what is left of `t` once some prefix is taken away.
pub open spec fn is_suffix_of_text(a: Seq<char>, t: Seq<char>) -> bool {
    exists|k: int| 0 <= k <= t.len() && a == #[trigger] t.subrange(k, t.len() as int)
}

/// Compiles `pattern` with `regex::Regex::new` and removes the first match
/// in `text` with `Regex::replace`; the result is named by
/// `first_match_removed`, and is `None` when the pattern does not compile.
/// For the list-marker pattern the source and documentation of the regex
/// crate show more: the pattern compiles; being anchored by `^` (with no
/// multi-line flag), it can only match at the start of `text`, so what is
/// left is a suffix of `text`; and when `text` cannot begin with a match
/// (see `may_start_list_marker`), `text` comes back unchanged.
#[verifier::external_body]
fn remove_first_match(pattern: &str, text: &str) -> (r: Option<String>)
    ensures
        crate::models::text_view(r) == first_match_removed(pattern@, text@),
        pattern@ == "^(\\d+(\\.\\d+)*|[ivxlc]+\\.|[a-z][\\.\\)])\\s*"@ ==> r is Some && is_suffix_of_text(r.unwrap()@, text@),
        pattern@ == "^(\\d+(\\.\\d+)*|[ivxlc]+\\.|[a-z][\\.\\)])\\s*"@ && !may_start_list_marker(text@) ==> r is Some && r.unwrap()@ == text@,
{
    regex::Regex::new(pattern).ok().map(|re| re.replace(text, "").into_owned())
}

/// `s` composed, lower-cased and trimmed.
pub open spec fn lowered_form(s: Seq<char>) -> Seq<char> {
    trim(lowercase_form(nfc_form(s)))
}

/// The normal form of `s`: composed, lower-cased and trimmed; then, when
/// `strip_numbers` holds, with a leading list marker removed and trimmed
/// again; and at last with its words joined by single spaces.
pub open spec fn normalized(strip_numbers: bool, s: Seq<char>) -> Seq<char> {
    let lowered = trim(lowercase_form(nfc_form(s)));
    let unmarked = if strip_numbers {
        match first_match_removed(LIST_MARKER@, lowered) {
            Some(rest) => trim(rest),
            None => lowered,
        }
    } else {
        lowered
    };
    collapse_white_space(unmarked)
}

pub struct Normalizer {
    pub strip_numbers: bool,
}

impl Normalizer {
    pub fn new(strip_numbers: bool) -> (n: Normalizer)
        ensures
            n.strip_numbers == strip_numbers,
    {
        Normalizer { strip_numbers }
    }

    /// The normal form of `s`. The list-marker pattern compiles; were it not
    /// to, the text would be left without that step.
    pub fn normalize(&self, s: &str) -> (r: String)
        ensures
            r@ == normalized(self.strip_numbers, s@),
            self.strip_numbers ==> exists|rest: Seq<char>|
                is_suffix_of_text(rest, lowered_form(s@)) && r@ == collapse_white_space(trim(rest)),
            self.strip_numbers && !may_start_list_marker(lowered_form(s@)) ==> r@
                == collapse_white_space(lowered_form(s@)),
            !self.strip_numbers ==> r@ == collapse_white_space(lowered_form(s@)),
    {
        let composed = nfc_of(s);
        let lowered = lowercase_of(composed.as_str());
        let lowered = trim_chars(&chars_of(lowered.as_str()));
        let unmarked = if self.strip_numbers {
            let current = string_from_chars(&lowered);
            let removed = remove_first_match(LIST_MARKER, current.as_str());
            proof {
                lemma_trim_idempotent(lowercase_form(nfc_form(s@)));
                assert(is_suffix_of_text(removed.unwrap()@, lowered_form(s@)));
            }
            match removed {
                Some(rest) => trim_chars(&chars_of(rest.as_str())),
                None => lowered,
            }
        } else {
            lowered
        };
        string_from_chars(&collapse_white_space_chars(&unmarked))
    }
}

/// Texts with the same canonical composition normalize alike: a name typed
/// with combining accents matches the same name typed with precomposed
/// letters.
pub proof fn law_normalization_ignores_composition(strip_numbers: bool, a: Seq<char>, b: Seq<char>)
    requires
        nfc_form(a) == nfc_form(b),
    ensures
        normalized(strip_numbers, a) == normalized(strip_numbers, b),
{
}

/// A normal form has no white space at either end, and inside it only
/// single spaces between words.
pub proof fn law_normal_form_is_single_spaced(strip_numbers: bool, s: Seq<char>)
    ensures
        single_spaced(normalized(strip_numbers, s)),
        normalized(strip_numbers, s).len() > 0 ==> !is_white_space(normalized(strip_numbers, s)[0])
            && !is_white_space(normalized(strip_numbers, s).last()),
{
    let lowered = trim(lowercase_form(nfc_form(s)));
    let unmarked = if strip_numbers {
        match first_match_removed(LIST_MARKER@, lowered) {
            Some(rest) => trim(rest),
            None => lowered,
        }
    } else {
        lowered
    };
    law_collapsed_text_is_single_spaced(unmarked);
}

} // verus!
