//! Texts as sequences of characters: comparing, joining, padding and splitting them.
use vstd::prelude::*;
use vstd::string::*;
use vstd::utf8::encode_utf8;

verus! {

/// What a string holds: its characters, in order.
pub type Text = Seq<char>;

/// The parts, in order, with `separator` between each two neighbours.
pub open spec fn joined(parts: Seq<Text>, separator: Text) -> Text
    decreases parts.len(),
{
    if parts.len() == 0 {
        Seq::empty()
    } else if parts.len() == 1 {
        parts[0]
    } else {
        joined(parts.drop_last(), separator) + separator + parts.last()
    }
}

/// `text`, then spaces up to a width of `width` characters; no spaces where it is as wide already.
pub open spec fn padded(text: Text, width: nat) -> Text {
    text + Seq::new(
        if text.len() < width {
            (width - text.len()) as nat
        } else {
            0
        },
        |i: int| ' ',
    )
}

/// Whether the two characters `first` and `second` stand at position `at` of `text`.
pub open spec fn pair_at(text: Text, first: char, second: char, at: int) -> bool {
    0 <= at && at + 1 < text.len() && text[at] == first && text[at + 1] == second
}

/// Whether `text` holds the character `first` directly before `second`.
pub open spec fn has_pair(text: Text, first: char, second: char) -> bool {
    exists|at: int| #[trigger] pair_at(text, first, second, at)
}

/// Whether the first `first`-`second` pair of `text` stands at position `at`.
pub open spec fn first_pair_at(text: Text, first: char, second: char, at: int) -> bool {
    &&& pair_at(text, first, second, at)
    &&& forall|k: int| 0 <= k < at ==> !#[trigger] pair_at(text, first, second, k)
}

/// What follows the first `first`-`second` pair of `text`; the whole text where there is none.
pub open spec fn after_first_pair(text: Text, first: char, second: char) -> Text {
    if has_pair(text, first, second) {
        let at = choose|at: int| #[trigger] first_pair_at(text, first, second, at);
        text.skip(at + 2)
    } else {
        text
    }
}

/// Nothing joined is the empty text, one part joined is that part, and the parts of two lists
/// joined are the two joined texts with one separator between them.
pub proof fn law_joined(a: Seq<Text>, b: Seq<Text>, part: Text, separator: Text)
    ensures
        joined(Seq::empty(), separator).len() == 0,
        joined(seq![part], separator) == part,
        a.len() > 0 && b.len() > 0 ==> joined(a + b, separator) == joined(a, separator) + separator
            + joined(b, separator),
    decreases b.len(),
{
    if a.len() > 0 && b.len() > 0 {
        let rest = b.drop_last();
        assert((a + b).drop_last() =~= a + rest);
        assert((a + b).last() == b.last());
        if rest.len() > 0 {
            law_joined(a, rest, part, separator);
            assert(joined(a + b, separator) =~= joined(a, separator) + separator + joined(
                b,
                separator,
            ));
        } else {
            assert(a + rest =~= a);
        }
    }
}

/// A padded text begins with the text, has spaces behind it and nothing else, and is as wide as
/// the wider of the text and the width.
pub proof fn law_padded(text: Text, width: nat)
    ensures
        padded(text, width).len() == if text.len() < width {
            width
        } else {
            text.len()
        },
        padded(text, width).take(text.len() as int) == text,
        forall|k: int|
            text.len() <= k < padded(text, width).len() ==> #[trigger] padded(text, width)[k]
                == ' ',
{
    assert(padded(text, width).take(text.len() as int) =~= text);
}

/// What follows the first pair is found behind it, whatever comes later; a text without the pair
/// is left whole.
pub proof fn law_after_first_pair(before: Text, after: Text, first: char, second: char)
    ensures
        ({
            let text = before + seq![first, second] + after;
            (forall|k: int|
                0 <= k < before.len() ==> !(#[trigger] text[k] == first && text[k + 1] == second))
                ==> after_first_pair(text, first, second) == after
        }),
        (forall|k: int|
            0 <= k < before.len() - 1 ==> !(#[trigger] before[k] == first && before[k + 1]
                == second)) ==> after_first_pair(before, first, second) == before,
{
    let text = before + seq![first, second] + after;
    if forall|k: int|
        0 <= k < before.len() ==> !(#[trigger] text[k] == first && text[k + 1] == second) {
        let at = before.len() as int;
        assert(pair_at(text, first, second, at));
        assert forall|k: int| 0 <= k < at implies !#[trigger] pair_at(text, first, second, k) by {
            assert(!(text[k] == first && text[k + 1] == second));
        }
        assert(first_pair_at(text, first, second, at));
        let found = choose|found: int| #[trigger] first_pair_at(text, first, second, found);
        assert(found == at);
        assert(text.skip(at + 2) =~= after);
    }
    if forall|k: int|
        0 <= k < before.len() - 1 ==> !(#[trigger] before[k] == first && before[k + 1] == second) {
        assert forall|k: int| !#[trigger] pair_at(before, first, second, k) by {
            if 0 <= k < before.len() - 1 {
                assert(!(before[k] == first && before[k + 1] == second));
            }
        }
    }
}

/// Whether the last line break of `text` stands at position `at`.
pub open spec fn last_break_at(text: Text, at: int) -> bool {
    &&& 0 <= at < text.len()
    &&& text[at] == '\n'
    &&& forall|k: int| at < k < text.len() ==> #[trigger] text[k] != '\n'
}

/// The lines of `text`: the pieces between its line breaks.
pub open spec fn lines(text: Text) -> Seq<Text>
    decreases text.len(),
{
    if exists|at: int| #[trigger] last_break_at(text, at) {
        let at = choose|at: int| #[trigger] last_break_at(text, at);
        lines(text.take(at)).push(text.skip(at + 1))
    } else {
        seq![text]
    }
}

proof fn lemma_has_last_break(text: Text, at: int) -> (last: int)
    requires
        0 <= at < text.len(),
        text[at] == '\n',
    ensures
        last_break_at(text, last),
    decreases text.len() - at,
{
    if exists|k: int| at < k < text.len() && #[trigger] text[k] == '\n' {
        let k = choose|k: int| at < k < text.len() && #[trigger] text[k] == '\n';
        lemma_has_last_break(text, k)
    } else {
        at
    }
}

/// The lines of a text hold no line break, and joined by line breaks they are the text.
pub proof fn law_lines(text: Text)
    ensures
        lines(text).len() > 0,
        joined(lines(text), "\n"@) == text,
        forall|i: int| 0 <= i < lines(text).len() ==> !(#[trigger] lines(text)[i]).contains('\n'),
    decreases text.len(),
{
    reveal_strlit("\n");
    if exists|at: int| #[trigger] last_break_at(text, at) {
        let at = choose|at: int| #[trigger] last_break_at(text, at);
        let start = lines(text.take(at));
        let end = text.skip(at + 1);
        law_lines(text.take(at));
        assert(lines(text).drop_last() =~= start);
        assert(joined(lines(text), "\n"@) =~= text);
        assert(!end.contains('\n')) by {
            if end.contains('\n') {
                let k = end.index_of('\n');
                assert(text[at + 1 + k] == '\n');
            }
        }
        assert forall|i: int| 0 <= i < lines(text).len() implies !(
        #[trigger] lines(text)[i]).contains('\n') by {
            if i < start.len() {
                assert(lines(text)[i] == start[i]);
            }
        }
    } else {
        if text.contains('\n') {
            let k = text.index_of('\n');
            let last = lemma_has_last_break(text, k);
            assert(last_break_at(text, last));
        }
    }
}

/// Items that are joined by line breaks are the lines of what comes out, where no item holds
/// a line break itself.
pub proof fn law_joined_items_are_lines(items: Seq<Text>)
    requires
        items.len() > 0,
        forall|i: int| 0 <= i < items.len() ==> !(#[trigger] items[i]).contains('\n'),
    ensures
        lines(joined(items, "\n"@)) == items,
    decreases items.len(),
{
    reveal_strlit("\n");
    let text = joined(items, "\n"@);
    if items.len() == 1 {
        assert(!items[0].contains('\n'));
        assert forall|at: int| !#[trigger] last_break_at(text, at) by {
            if last_break_at(text, at) {
                assert(items[0].contains(text[at]));
            }
        }
        assert(lines(text) =~= items);
    } else {
        let rest = items.drop_last();
        assert forall|i: int| 0 <= i < rest.len() implies !(#[trigger] rest[i]).contains('\n') by {
            assert(!items[i].contains('\n'));
        }
        law_joined_items_are_lines(rest);
        let start = joined(rest, "\n"@).len() as int;
        assert(!items[items.len() - 1].contains('\n'));
        assert forall|k: int| start < k < text.len() implies #[trigger] text[k] != '\n' by {
            assert(text[k] == items.last()[k - start - 1]);
            assert(items.last().contains(items.last()[k - start - 1]));
        }
        assert(text[start] == '\n');
        assert(last_break_at(text, start));
        let at = choose|at: int| #[trigger] last_break_at(text, at);
        assert(at == start);
        assert(text.take(start) =~= joined(rest, "\n"@));
        assert(text.skip(start + 1) =~= items.last());
        assert(lines(text) =~= items);
    }
}

/// The encoding of two texts, one after the other, is the encodings of both.
pub proof fn lemma_encode_concat(a: Text, b: Text)
    ensures
        encode_utf8(a + b) == encode_utf8(a) + encode_utf8(b),
    decreases a.len(),
{
    if a.len() == 0 {
        assert(a + b =~= b);
        assert(encode_utf8(a) + encode_utf8(b) =~= encode_utf8(b));
    } else {
        lemma_encode_concat(a.drop_first(), b);
        assert((a + b).drop_first() =~= a.drop_first() + b);
        assert(encode_utf8(a + b) =~= encode_utf8(a) + encode_utf8(b));
    }
}

/// The characters of `text`.
pub fn to_chars(text: &str) -> (chars: Vec<char>)
    ensures
        chars@ == text@,
{
    let mut chars: Vec<char> = Vec::new();
    for c in iter: text.chars()
        invariant
            iter.seq() == text@,
            chars@ == text@.take(iter.index() as int),
    {
        chars.push(c);
    }
    assert(text@.take(text@.len() as int) =~= text@);
    chars
}

/// Whether two texts are equal.
pub fn same_text(a: &str, b: &str) -> (same: bool)
    ensures
        same == (a@ == b@),
{
    let x: Vec<char> = to_chars(a);
    let y: Vec<char> = to_chars(b);
    if x.len() != y.len() {
        return false;
    }
    let mut i: usize = 0;
    while i < x.len()
        invariant
            x@ == a@,
            y@ == b@,
            x.len() == y.len(),
            i <= x.len(),
            forall|k: int| 0 <= k < i ==> x@[k] == y@[k],
        decreases x.len() - i,
    {
        if x[i] != y[i] {
            return false;
        }
        i = i + 1;
    }
    assert(a@ =~= b@);
    true
}

/// Whether `text` begins with `prefix`.
pub fn starts_with(text: &str, prefix: &str) -> (starts: bool)
    ensures
        starts == prefix@.is_prefix_of(text@),
{
    let x: Vec<char> = to_chars(prefix);
    let y: Vec<char> = to_chars(text);
    if x.len() > y.len() {
        return false;
    }
    let mut i: usize = 0;
    while i < x.len()
        invariant
            x@ == prefix@,
            y@ == text@,
            x.len() <= y.len(),
            i <= x.len(),
            forall|k: int| 0 <= k < i ==> x@[k] == y@[k],
        decreases x.len() - i,
    {
        if x[i] != y[i] {
            assert(text@.subrange(0, prefix@.len() as int)[i as int] != prefix@[i as int]);
            return false;
        }
        i = i + 1;
    }
    assert(prefix@ =~= text@.subrange(0, prefix@.len() as int));
    true
}

/// The parts joined, with `separator` between each two neighbours.
pub fn join(parts: &[String], separator: &str) -> (text: String)
    ensures
        text@ == joined(parts.deep_view(), separator@),
{
    let mut text: String = String::new();
    let mut i: usize = 0;
    let ghost views = parts.deep_view();
    assert(views.take(0) =~= Seq::<Text>::empty());
    while i < parts.len()
        invariant
            views == parts.deep_view(),
            i <= parts.len(),
            text@ == joined(views.take(i as int), separator@),
        decreases parts.len() - i,
    {
        if i > 0 {
            text.append(separator);
        }
        text.append(parts[i].as_str());
        proof {
            assert(views.take(i + 1).drop_last() =~= views.take(i as int));
            assert(views.take(i + 1).last() == parts@[i as int]@);
            assert(i == 0 ==> text@ =~= parts@[0]@);
        }
        i = i + 1;
    }
    assert(views.take(views.len() as int) =~= views);
    text
}

/// `text`, padded with spaces on the right to a width of `width` characters.
pub fn pad_right(text: &str, width: usize) -> (padded_text: String)
    ensures
        padded_text@ == padded(text@, width as nat),
{
    let mut result: String = text.to_owned();
    let mut len: usize = text.unicode_len();
    assert(result@ =~= text@ + Seq::new(0, |i: int| ' '));
    while len < width
        invariant
            len <= width || len == text@.len(),
            text@.len() <= len,
            result@ == text@ + Seq::new((len - text@.len()) as nat, |i: int| ' '),
        decreases width - len,
    {
        let ghost before = result@;
        result.append(" ");
        proof {
            reveal_strlit(" ");
            assert(result@ =~= text@ + Seq::new((len + 1 - text@.len()) as nat, |i: int| ' '));
        }
        len = len + 1;
    }
    result
}

/// What follows the first `first`-`second` pair of `text`; the whole text where there is none.
pub fn rest_after_pair(text: &str, first: char, second: char) -> (rest: String)
    ensures
        rest@ == after_first_pair(text@, first, second),
{
    let chars: Vec<char> = to_chars(text);
    let mut i: usize = 0;
    while i < chars.len()
        invariant
            chars@ == text@,
            i <= chars.len(),
            forall|k: int| 0 <= k < i ==> !#[trigger] pair_at(text@, first, second, k),
        decreases chars.len() - i,
    {
        if i + 1 < chars.len() && chars[i] == first && chars[i + 1] == second {
            proof {
                assert(pair_at(text@, first, second, i as int));
                assert(first_pair_at(text@, first, second, i as int));
                let at = choose|at: int| #[trigger] first_pair_at(text@, first, second, at);
                assert(at == i);
            }
            return text.substring_char(i + 2, chars.len()).to_owned();
        }
        i = i + 1;
    }
    text.to_owned()
}

} // verus!
