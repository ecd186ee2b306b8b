//! Cutting texts down to a number of bytes without splitting a character.
use vstd::prelude::*;
use vstd::string::*;
use vstd::utf8::encode_scalar;
use vstd::utf8::encode_utf8;
use crate::text::lemma_encode_concat;
use crate::text::to_chars;
use crate::text::Text;

verus! {

/// How many bytes `text` takes in UTF-8.
pub open spec fn byte_len(text: Text) -> nat {
    encode_utf8(text).len()
}

/// The longest prefix of `text` that takes at most `budget` bytes.
pub open spec fn fitting_prefix(text: Text, budget: nat) -> Text
    decreases text.len(),
{
    if text.len() == 0 || byte_len(text) <= budget {
        text
    } else {
        fitting_prefix(text.drop_last(), budget)
    }
}

/// `text` cut down to `max_bytes` bytes: the text itself where it fits, else as much of its
/// beginning as leaves room for `suffix`, and then `suffix`. A suffix that is too long by itself
/// is cut down and stands alone.
pub open spec fn truncated(text: Text, max_bytes: nat, suffix: Text) -> Text {
    if byte_len(text) <= max_bytes {
        text
    } else if byte_len(suffix) > max_bytes {
        fitting_prefix(suffix, max_bytes)
    } else {
        fitting_prefix(text, (max_bytes - byte_len(suffix)) as nat) + suffix
    }
}

/// The bytes of two texts, one after the other, are the bytes of both.
pub proof fn lemma_byte_len_concat(a: Text, b: Text)
    ensures
        byte_len(a + b) == byte_len(a) + byte_len(b),
{
    lemma_encode_concat(a, b);
}

/// A text has at least as many bytes as characters.
pub proof fn lemma_byte_len_bound(text: Text)
    ensures
        text.len() <= byte_len(text),
    decreases text.len(),
{
    if text.len() > 0 {
        lemma_byte_len_bound(text.drop_first());
    }
}

proof fn lemma_byte_len_next(text: Text, k: int)
    requires
        0 <= k < text.len(),
    ensures
        byte_len(text.take(k + 1)) == byte_len(text.take(k)) + encode_scalar(text[k] as u32).len(),
{
    let one: Text = seq![text[k]];
    assert(text.take(k + 1) =~= text.take(k) + one);
    lemma_byte_len_concat(text.take(k), one);
    assert(one.drop_first() =~= Seq::<char>::empty());
    reveal_with_fuel(encode_utf8, 2);
    assert(encode_utf8(one) =~= encode_scalar(text[k] as u32));
}

proof fn lemma_prefix_monotonic(text: Text, j: int, k: int)
    requires
        0 <= j <= k <= text.len(),
    ensures
        byte_len(text.take(j)) <= byte_len(text.take(k)),
{
    assert(text.take(k) =~= text.take(j) + text.subrange(j, k));
    lemma_byte_len_concat(text.take(j), text.subrange(j, k));
}

proof fn lemma_fitting_prefix_is(text: Text, budget: nat, k: int)
    requires
        0 <= k <= text.len(),
        byte_len(text.take(k)) <= budget,
        k < text.len() ==> byte_len(text.take(k + 1)) > budget,
    ensures
        fitting_prefix(text, budget) == text.take(k),
    decreases text.len(),
{
    assert(text.take(text.len() as int) =~= text);
    if k < text.len() {
        lemma_prefix_monotonic(text, k + 1, text.len() as int);
        let shorter = text.drop_last();
        assert(shorter.take(k) =~= text.take(k));
        if k < shorter.len() {
            assert(shorter.take(k + 1) =~= text.take(k + 1));
        }
        lemma_fitting_prefix_is(shorter, budget, k);
    }
}

/// The longest fitting prefix is a prefix, fits, and no longer prefix fits.
pub proof fn law_fitting_prefix(text: Text, budget: nat)
    ensures
        fitting_prefix(text, budget).is_prefix_of(text),
        byte_len(fitting_prefix(text, budget)) <= budget,
        forall|k: int|
            fitting_prefix(text, budget).len() < k <= text.len() ==> byte_len(
                #[trigger] text.take(k),
            ) > budget,
    decreases text.len(),
{
    assert(text.take(text.len() as int) =~= text);
    if text.len() > 0 && byte_len(text) > budget {
        let shorter = text.drop_last();
        law_fitting_prefix(shorter, budget);
        assert forall|k: int|
            fitting_prefix(text, budget).len() < k <= text.len() implies byte_len(
            #[trigger] text.take(k),
        ) > budget by {
            if k < text.len() {
                assert(shorter.take(k) =~= text.take(k));
            }
        }
    }
}

/// A truncated text takes at most the bytes that were allowed, a text that fits is left alone,
/// one that does not fit is marked by the suffix where the suffix fits, and truncating twice
/// is truncating once.
pub proof fn law_truncated(text: Text, max_bytes: nat, suffix: Text)
    ensures
        byte_len(truncated(text, max_bytes, suffix)) <= max_bytes,
        byte_len(text) <= max_bytes ==> truncated(text, max_bytes, suffix) == text,
        byte_len(text) > max_bytes && byte_len(suffix) <= max_bytes ==> {
            let kept = fitting_prefix(text, (max_bytes - byte_len(suffix)) as nat);
            kept.is_prefix_of(text) && truncated(text, max_bytes, suffix) == kept + suffix
        },
        truncated(truncated(text, max_bytes, suffix), max_bytes, suffix) == truncated(
            text,
            max_bytes,
            suffix,
        ),
{
    if byte_len(text) > max_bytes {
        if byte_len(suffix) > max_bytes {
            law_fitting_prefix(suffix, max_bytes);
        } else {
            let budget = (max_bytes - byte_len(suffix)) as nat;
            law_fitting_prefix(text, budget);
            lemma_byte_len_concat(fitting_prefix(text, budget), suffix);
        }
    }
}

proof fn lemma_fitting_prefix_cut(text: Text, budget: nat) -> (k: int)
    requires
        byte_len(text) > budget,
    ensures
        0 <= k < text.len(),
        fitting_prefix(text, budget) == text.take(k),
        encode_utf8(text.take(k)).len() <= budget,
        encode_utf8(text.take(k + 1)).len() > budget,
{
    law_fitting_prefix(text, budget);
    let k = fitting_prefix(text, budget).len() as int;
    assert(fitting_prefix(text, budget) =~= text.take(k));
    assert(text.take(text.len() as int) =~= text);
    k
}

/// A prefix is kept whole where the text fits, and else ends directly before the character that
/// would take it over the budget.
pub proof fn law_fitting_prefix_is_longest(text: Text, budget: nat)
    ensures
        encode_utf8(text).len() <= budget ==> fitting_prefix(text, budget) == text,
        encode_utf8(text).len() > budget ==> exists|k: int|
            0 <= k < text.len() && fitting_prefix(text, budget) == #[trigger] text.take(k)
                && encode_utf8(text.take(k)).len() <= budget < encode_utf8(text.take(k + 1)).len(),
{
    if encode_utf8(text).len() > budget {
        let k = lemma_fitting_prefix_cut(text, budget);
        assert(fitting_prefix(text, budget) == text.take(k));
    }
}

/// A text is cut only where it takes too many bytes, and then no more than must be: with one
/// character more, what is kept and the suffix would not fit. A suffix that does not fit by
/// itself is cut in the same way and stands alone.
pub proof fn law_truncation_cuts_no_more_than_needed(text: Text, max_bytes: nat, suffix: Text)
    ensures
        encode_utf8(text).len() <= max_bytes ==> truncated(text, max_bytes, suffix) == text,
        encode_utf8(text).len() > max_bytes && encode_utf8(suffix).len() <= max_bytes ==> exists|
            k: int,
        |
            0 <= k < text.len() && truncated(text, max_bytes, suffix) == #[trigger] text.take(k)
                + suffix && encode_utf8(text.take(k)).len() + encode_utf8(suffix).len()
                <= max_bytes < encode_utf8(text.take(k + 1)).len() + encode_utf8(suffix).len(),
        encode_utf8(text).len() > max_bytes && encode_utf8(suffix).len() > max_bytes ==> exists|
            k: int,
        |
            0 <= k < suffix.len() && truncated(text, max_bytes, suffix) == #[trigger] suffix.take(k)
                && encode_utf8(suffix.take(k)).len() <= max_bytes < encode_utf8(
                suffix.take(k + 1),
            ).len(),
{
    if encode_utf8(text).len() > max_bytes {
        if encode_utf8(suffix).len() <= max_bytes {
            let k = lemma_fitting_prefix_cut(text, (max_bytes - byte_len(suffix)) as nat);
            assert(truncated(text, max_bytes, suffix) == text.take(k) + suffix);
        } else {
            let k = lemma_fitting_prefix_cut(suffix, max_bytes);
            assert(truncated(text, max_bytes, suffix) == suffix.take(k));
        }
    }
}

/// How many bytes `c` takes in UTF-8.
fn char_width(c: char) -> (width: usize)
    ensures
        width == encode_scalar(c as u32).len(),
        1 <= width <= 4,
{
    let scalar: u32 = c as u32;
    if scalar <= 0x7f {
        1
    } else if scalar <= 0x7ff {
        2
    } else if scalar <= 0xffff {
        3
    } else {
        4
    }
}

/// The longest prefix of `text` that takes at most `max_bytes` bytes.
pub fn truncate_safe(text: &str, max_bytes: usize) -> (prefix: String)
    ensures
        prefix@ == fitting_prefix(text@, max_bytes as nat),
{
    let chars: Vec<char> = to_chars(text);
    let mut kept: usize = 0;
    let mut used: usize = 0;
    assert(text@.take(0) =~= Seq::<char>::empty());
    while kept < chars.len()
        invariant
            chars@ == text@,
            kept <= chars.len(),
            used == byte_len(text@.take(kept as int)),
            used <= max_bytes,
        decreases chars.len() - kept,
    {
        let width: usize = char_width(chars[kept]);
        proof {
            lemma_byte_len_next(text@, kept as int);
        }
        if width > max_bytes - used {
            proof {
                lemma_fitting_prefix_is(text@, max_bytes as nat, kept as int);
            }
            return text.substring_char(0, kept).to_owned();
        }
        used = used + width;
        kept = kept + 1;
    }
    proof {
        lemma_fitting_prefix_is(text@, max_bytes as nat, kept as int);
        assert(text@.take(kept as int) =~= text@);
    }
    text.to_owned()
}

/// Cuts `text` down to at most `max_bytes` bytes, ending it in `suffix` where something was cut.
pub fn truncate_safe_in_place(text: &mut String, max_bytes: usize, suffix: &str)
    ensures
        final(text)@ == truncated(old(text)@, max_bytes as nat, suffix@),
{
    let text_len: usize = text.as_str().as_bytes().len();
    if text_len <= max_bytes {
        return;
    }
    let suffix_len: usize = suffix.as_bytes().len();
    if suffix_len > max_bytes {
        *text = truncate_safe(suffix, max_bytes);
        return;
    }
    let mut shortened: String = truncate_safe(text.as_str(), max_bytes - suffix_len);
    shortened.append(suffix);
    *text = shortened;
}

} // verus!
