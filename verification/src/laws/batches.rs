//! The requests and the replies of a batch are told apart as they stand in its JSON text.

use vstd::prelude::*;

use crate::forwarder::{
    after_white_space, first_key_at, occurs_at, reply_of, reports_error, value_not_null, ERROR_KEY,
    NULL_VALUE,
};
use crate::rpc::batch_requests;
use crate::scan::{
    ascii_white_space, looks_like_batch, scan_from, Scan, BACKSLASH, CLOSING_BRACE, CLOSING_BRACKET,
    OPENING_BRACE, OPENING_BRACKET, QUOTE,
};
use crate::text::white_space;

verus! {

/// A JSON text. Every JSON document can be written as one.
pub enum JsonText {
    /// A number or one of the words `null`, `true` and `false`.
    Word(Seq<u8>),
    /// A string, by what stands between its quotes.
    Quoted(Seq<u8>),
    /// An array, by its items.
    Array(Seq<JsonText>),
    /// An object, by its members.
    Object(Seq<JsonText>),
    /// A member of an object: its key and its value.
    Pair(Box<JsonText>, Box<JsonText>),
    /// A text with white space before and after it.
    Spaced(Seq<u8>, Box<JsonText>, Seq<u8>),
}

/// No quote, bracket or brace stands in `bytes`.
pub open spec fn without_structure(bytes: Seq<u8>) -> bool {
    forall|i: int|
        0 <= i < bytes.len() ==> {
            let b = #[trigger] bytes[i];
            b != QUOTE && b != OPENING_BRACKET && b != CLOSING_BRACKET && b != OPENING_BRACE && b
                != CLOSING_BRACE
        }
}

/// `bytes` can stand between quotes: each quote in it is escaped, and no escape is left open.
pub open spec fn string_content(bytes: Seq<u8>) -> bool
    decreases bytes.len(),
{
    if bytes.len() == 0 {
        true
    } else if bytes[0] == BACKSLASH {
        bytes.len() >= 2 && string_content(bytes.subrange(2, bytes.len() as int))
    } else {
        bytes[0] != QUOTE && string_content(bytes.subrange(1, bytes.len() as int))
    }
}

/// The words, strings and white space of `text` are such.
pub open spec fn wf(text: JsonText) -> bool
    decreases text,
{
    match text {
        JsonText::Word(bytes) => without_structure(bytes),
        JsonText::Quoted(bytes) => string_content(bytes),
        JsonText::Array(items) => forall|i: int| 0 <= i < items.len() ==> wf(#[trigger] items[i]),
        JsonText::Object(items) => forall|i: int| 0 <= i < items.len() ==> wf(#[trigger] items[i]),
        JsonText::Pair(key, value) => wf(*key) && wf(*value),
        JsonText::Spaced(before, inner, after) => {
            without_structure(before) && wf(*inner) && without_structure(after)
        },
    }
}

/// The bytes of `text`.
pub open spec fn written(text: JsonText) -> Seq<u8>
    decreases text,
{
    match text {
        JsonText::Word(bytes) => bytes,
        JsonText::Quoted(bytes) => seq![QUOTE] + bytes + seq![QUOTE],
        JsonText::Array(items) => seq![OPENING_BRACKET] + joined(items) + seq![CLOSING_BRACKET],
        JsonText::Object(items) => seq![OPENING_BRACE] + joined(items) + seq![CLOSING_BRACE],
        JsonText::Pair(key, value) => written(*key) + seq![0x3au8] + written(*value),
        JsonText::Spaced(before, inner, after) => before + written(*inner) + after,
    }
}

/// The bytes of `items` with commas between them.
pub open spec fn joined(items: Seq<JsonText>) -> Seq<u8>
    decreases items,
{
    if items.len() == 0 {
        Seq::empty()
    } else if items.len() == 1 {
        written(items[0])
    } else {
        joined(items.subrange(0, items.len() - 1)) + seq![0x2cu8] + written(items[items.len() - 1])
    }
}

/// The number of objects that `text` is: one or none. A member counts for its key and its value.
pub open spec fn objects(text: JsonText) -> nat
    decreases text,
{
    match text {
        JsonText::Object(_) => 1,
        JsonText::Pair(key, value) => objects(*key) + objects(*value),
        JsonText::Spaced(_, inner, _) => objects(*inner),
        _ => 0,
    }
}

/// The number of objects among `items`.
pub open spec fn objects_among(items: Seq<JsonText>) -> nat
    decreases items,
{
    if items.len() == 0 {
        0
    } else {
        objects_among(items.subrange(0, items.len() - 1)) + objects(items[items.len() - 1])
    }
}

/// The items of `text`, if it is an array, with or without white space around it.
pub open spec fn items_of(text: JsonText) -> Option<Seq<JsonText>>
    decreases text,
{
    match text {
        JsonText::Array(items) => Some(items),
        JsonText::Spaced(_, inner, _) => items_of(*inner),
        _ => None,
    }
}

/// No string is open.
spec fn outside(scan: Scan) -> bool {
    !scan.in_string && !scan.escaped
}

/// `scan` with `n` more objects if they stand directly in the outermost array.
spec fn counted(scan: Scan, n: nat) -> Scan {
    Scan { objects: scan.objects + if scan.depth == 1 { n } else { 0 }, ..scan }
}

proof fn lemma_scan_concat(scan: Scan, a: Seq<u8>, b: Seq<u8>)
    ensures
        scan_from(scan, a + b) == scan_from(scan_from(scan, a), b),
    decreases b.len(),
{
    if b.len() == 0 {
        assert(a + b == a);
    } else {
        assert((a + b).drop_last() == a + b.drop_last());
        assert((a + b).last() == b.last());
        lemma_scan_concat(scan, a, b.drop_last());
    }
}

proof fn lemma_scan_one(scan: Scan, b: u8)
    ensures
        scan_from(scan, seq![b]) == scan.next(b),
{
    let one = seq![b];
    assert(one.drop_last() == Seq::<u8>::empty());
    assert(scan_from(scan, one.drop_last()) == scan);
}

proof fn lemma_scan_word(scan: Scan, bytes: Seq<u8>)
    requires
        outside(scan),
        without_structure(bytes),
    ensures
        scan_from(scan, bytes) == scan,
    decreases bytes.len(),
{
    if bytes.len() > 0 {
        assert forall|i: int| 0 <= i < bytes.len() - 1 implies ({
            let b = #[trigger] bytes.drop_last()[i];
            b != QUOTE && b != OPENING_BRACKET && b != CLOSING_BRACKET && b != OPENING_BRACE && b
                != CLOSING_BRACE
        }) by {
            assert(bytes[i] == bytes.drop_last()[i]);
        }
        lemma_scan_word(scan, bytes.drop_last());
        assert(bytes[bytes.len() - 1] == bytes.last());
    }
}

proof fn lemma_scan_content(scan: Scan, bytes: Seq<u8>)
    requires
        scan.in_string,
        !scan.escaped,
        string_content(bytes),
    ensures
        scan_from(scan, bytes) == scan,
    decreases bytes.len(),
{
    if bytes.len() > 0 {
        let n = if bytes[0] == BACKSLASH {
            2int
        } else {
            1
        };
        let front = bytes.subrange(0, n);
        let rest = bytes.subrange(n, bytes.len() as int);
        assert(bytes == front + rest);
        lemma_scan_concat(scan, front, rest);
        lemma_scan_one(scan, bytes[0]);
        if n == 2 {
            assert(front == seq![bytes[0]] + seq![bytes[1]]);
            lemma_scan_concat(scan, seq![bytes[0]], seq![bytes[1]]);
            lemma_scan_one(scan.next(bytes[0]), bytes[1]);
        } else {
            assert(front == seq![bytes[0]]);
        }
        assert(scan_from(scan, front) == scan);
        lemma_scan_content(scan, rest);
    }
}

proof fn lemma_scan_around(scan: Scan, a: u8, inner: Seq<u8>, b: u8)
    ensures
        scan_from(scan, seq![a] + inner + seq![b]) == scan_from(scan.next(a), inner).next(b),
{
    lemma_scan_concat(scan, seq![a] + inner, seq![b]);
    lemma_scan_concat(scan, seq![a], inner);
    lemma_scan_one(scan, a);
    lemma_scan_one(scan_from(scan.next(a), inner), b);
}

proof fn lemma_scan_text(scan: Scan, text: JsonText)
    requires
        outside(scan),
        scan.depth >= 1,
        wf(text),
    ensures
        scan_from(scan, written(text)) == counted(scan, objects(text)),
    decreases text,
{
    match text {
        JsonText::Word(bytes) => {
            lemma_scan_word(scan, bytes);
        },
        JsonText::Quoted(bytes) => {
            lemma_scan_around(scan, QUOTE, bytes, QUOTE);
            lemma_scan_content(scan.next(QUOTE), bytes);
        },
        JsonText::Array(items) => {
            lemma_scan_around(scan, OPENING_BRACKET, joined(items), CLOSING_BRACKET);
            lemma_scan_items(scan.next(OPENING_BRACKET), items);
        },
        JsonText::Object(items) => {
            lemma_scan_around(scan, OPENING_BRACE, joined(items), CLOSING_BRACE);
            lemma_scan_items(scan.next(OPENING_BRACE), items);
        },
        JsonText::Pair(key, value) => {
            let between = counted(scan, objects(*key));
            lemma_scan_concat(scan, written(*key) + seq![0x3au8], written(*value));
            lemma_scan_concat(scan, written(*key), seq![0x3au8]);
            lemma_scan_text(scan, *key);
            lemma_scan_one(between, 0x3a);
            lemma_scan_text(between, *value);
        },
        JsonText::Spaced(before, inner, after) => {
            lemma_scan_concat(scan, before + written(*inner), after);
            lemma_scan_concat(scan, before, written(*inner));
            lemma_scan_word(scan, before);
            lemma_scan_text(scan, *inner);
            lemma_scan_word(counted(scan, objects(*inner)), after);
        },
    }
}

proof fn lemma_scan_items(scan: Scan, items: Seq<JsonText>)
    requires
        outside(scan),
        scan.depth >= 1,
        forall|i: int| 0 <= i < items.len() ==> wf(#[trigger] items[i]),
    ensures
        scan_from(scan, joined(items)) == counted(scan, objects_among(items)),
    decreases items,
{
    if items.len() > 0 {
        let n = items.len() - 1;
        let front = items.subrange(0, n);
        assert forall|i: int| 0 <= i < front.len() implies wf(#[trigger] front[i]) by {
            assert(front[i] == items[i]);
        }
        assert(wf(items[n]));
        if n == 0 {
            assert(objects_among(front) == 0);
            lemma_scan_text(scan, items[0]);
        } else {
            let between = counted(scan, objects_among(front));
            lemma_scan_concat(scan, joined(front) + seq![0x2cu8], written(items[n]));
            lemma_scan_concat(scan, joined(front), seq![0x2cu8]);
            lemma_scan_items(scan, front);
            lemma_scan_one(between, 0x2c);
            lemma_scan_text(between, items[n]);
        }
    }
}

proof fn lemma_scan_batch(scan: Scan, text: JsonText, items: Seq<JsonText>)
    requires
        outside(scan),
        scan.depth == 0,
        wf(text),
        items_of(text) == Some(items),
    ensures
        scan_from(scan, written(text)) == (Scan {
            objects: scan.objects + objects_among(items),
            ..scan
        }),
    decreases text,
{
    match text {
        JsonText::Array(all) => {
            lemma_scan_around(scan, OPENING_BRACKET, joined(items), CLOSING_BRACKET);
            lemma_scan_items(scan.next(OPENING_BRACKET), items);
        },
        JsonText::Spaced(before, inner, after) => {
            lemma_scan_concat(scan, before + written(*inner), after);
            lemma_scan_concat(scan, before, written(*inner));
            lemma_scan_word(scan, before);
            lemma_scan_batch(scan, *inner, items);
            lemma_scan_word(
                Scan { objects: scan.objects + objects_among(items), ..scan },
                after,
            );
        },
        _ => {},
    }
}

/// No member of an object stands among the items of an array.
pub open spec fn no_pair(text: JsonText) -> bool
    decreases text,
{
    match text {
        JsonText::Pair(_, _) => false,
        JsonText::Spaced(_, inner, _) => no_pair(*inner),
        _ => true,
    }
}

proof fn lemma_at_most_one(text: JsonText)
    requires
        no_pair(text),
    ensures
        objects(text) <= 1,
    decreases text,
{
    if let JsonText::Spaced(_, inner, _) = text {
        lemma_at_most_one(*inner);
    }
}

proof fn lemma_objects_among(items: Seq<JsonText>)
    requires
        forall|i: int| 0 <= i < items.len() ==> no_pair(#[trigger] items[i]),
    ensures
        objects_among(items) <= items.len(),
    decreases items,
{
    if items.len() > 0 {
        let n = items.len() - 1;
        let front = items.subrange(0, n);
        assert forall|i: int| 0 <= i < front.len() implies no_pair(#[trigger] front[i]) by {
            assert(front[i] == items[i]);
        }
        lemma_objects_among(front);
        assert(no_pair(items[n]));
        lemma_at_most_one(items[n]);
    }
}

proof fn lemma_all_objects(items: Seq<JsonText>)
    requires
        forall|i: int| 0 <= i < items.len() ==> objects(#[trigger] items[i]) == 1,
    ensures
        objects_among(items) == items.len(),
    decreases items,
{
    if items.len() > 0 {
        let n = items.len() - 1;
        let front = items.subrange(0, n);
        assert forall|i: int| 0 <= i < front.len() implies objects(#[trigger] front[i]) == 1 by {
            assert(front[i] == items[i]);
        }
        lemma_all_objects(front);
        assert(objects(items[n]) == 1);
    }
}

/// The requests that are counted in the text of a batch are those of its items that are objects,
/// whatever is nested in them or stands in their strings. So a batch that is not larger than
/// accepted is never refused as too large before it is parsed, and of a batch of objects each one
/// counts.
pub proof fn law_batch_counted_by_items(text: JsonText, items: Seq<JsonText>, max_batch_size: usize)
    requires
        wf(text),
        items_of(text) == Some(items),
        forall|i: int| 0 <= i < items.len() ==> no_pair(#[trigger] items[i]),
    ensures
        batch_requests(written(text)) == objects_among(items),
        batch_requests(written(text)) <= items.len(),
        items.len() <= max_batch_size ==> !(looks_like_batch(written(text)) && batch_requests(
            written(text),
        ) > max_batch_size),
        (forall|i: int| 0 <= i < items.len() ==> objects(#[trigger] items[i]) == 1)
            ==> batch_requests(written(text)) == items.len(),
{
    lemma_scan_batch(Scan::start(), text, items);
    lemma_objects_among(items);
    if forall|i: int| 0 <= i < items.len() ==> objects(#[trigger] items[i]) == 1 {
        lemma_all_objects(items);
    }
}

proof fn lemma_take_concat(a: Seq<u8>, b: Seq<u8>, n: int)
    requires
        0 <= n <= a.len() + b.len(),
    ensures
        (a + b).take(n) == if n <= a.len() {
            a.take(n)
        } else {
            a + b.take(n - a.len())
        },
{
    if n <= a.len() {
        assert((a + b).take(n) =~= a.take(n));
    } else {
        assert((a + b).take(n) =~= a + b.take(n - a.len()));
    }
}

/// Reading from `scan` to `later` opened no object directly in the outermost array.
spec fn deeper(scan: Scan, later: Scan) -> bool {
    later.objects == scan.objects && later.depth >= scan.depth
}

proof fn lemma_prefix_of_content(scan: Scan, bytes: Seq<u8>, n: int)
    requires
        scan.in_string,
        !scan.escaped,
        string_content(bytes),
        0 <= n <= bytes.len(),
    ensures
        deeper(scan, scan_from(scan, bytes.take(n))),
    decreases bytes.len(),
{
    if n == 0 {
        assert(bytes.take(0) == Seq::<u8>::empty());
    } else {
        lemma_scan_one(scan, bytes[0]);
        if n == 1 {
            assert(bytes.take(1) == seq![bytes[0]]);
        } else {
            let m = if bytes[0] == BACKSLASH {
                2int
            } else {
                1
            };
            let front = bytes.subrange(0, m);
            let rest = bytes.subrange(m, bytes.len() as int);
            assert(bytes.take(n) == front + rest.take(n - m));
            lemma_scan_concat(scan, front, rest.take(n - m));
            if m == 2 {
                assert(front == seq![bytes[0]] + seq![bytes[1]]);
                lemma_scan_concat(scan, seq![bytes[0]], seq![bytes[1]]);
                lemma_scan_one(scan.next(bytes[0]), bytes[1]);
            } else {
                assert(front == seq![bytes[0]]);
            }
            assert(scan_from(scan, front) == scan);
            lemma_prefix_of_content(scan, rest, n - m);
        }
    }
}

proof fn lemma_prefix_of_word(scan: Scan, bytes: Seq<u8>, n: int)
    requires
        outside(scan),
        without_structure(bytes),
        0 <= n <= bytes.len(),
    ensures
        scan_from(scan, bytes.take(n)) == scan,
{
    assert forall|i: int| 0 <= i < n implies ({
        let b = #[trigger] bytes.take(n)[i];
        b != QUOTE && b != OPENING_BRACKET && b != CLOSING_BRACKET && b != OPENING_BRACE && b
            != CLOSING_BRACE
    }) by {
        assert(bytes[i] == bytes.take(n)[i]);
    }
    lemma_scan_word(scan, bytes.take(n));
}

proof fn lemma_prefix_of_text(scan: Scan, text: JsonText, n: int)
    requires
        outside(scan),
        scan.depth >= 2,
        wf(text),
        0 <= n <= written(text).len(),
    ensures
        deeper(scan, scan_from(scan, written(text).take(n))),
    decreases text,
{
    lemma_scan_text(scan, text);
    if n == written(text).len() {
        assert(written(text).take(n) == written(text));
    } else if n == 0 {
        assert(written(text).take(0) == Seq::<u8>::empty());
    } else {
        match text {
            JsonText::Word(bytes) => {
                lemma_prefix_of_word(scan, bytes, n);
            },
            JsonText::Quoted(bytes) => {
                lemma_prefix_around(scan, QUOTE, bytes, QUOTE, n);
                lemma_prefix_of_content(scan.next(QUOTE), bytes, n - 1);
            },
            JsonText::Array(items) => {
                lemma_prefix_around(scan, OPENING_BRACKET, joined(items), CLOSING_BRACKET, n);
                lemma_prefix_of_items(scan.next(OPENING_BRACKET), items, n - 1);
            },
            JsonText::Object(items) => {
                lemma_prefix_around(scan, OPENING_BRACE, joined(items), CLOSING_BRACE, n);
                lemma_prefix_of_items(scan.next(OPENING_BRACE), items, n - 1);
            },
            JsonText::Pair(key, value) => {
                let front = written(*key) + seq![0x3au8];
                lemma_scan_text(scan, *key);
                lemma_scan_concat(scan, written(*key), seq![0x3au8]);
                lemma_scan_one(scan, 0x3a);
                lemma_take_concat(front, written(*value), n);
                if n <= written(*key).len() {
                    lemma_take_concat(written(*key), seq![0x3au8], n);
                    lemma_prefix_of_text(scan, *key, n);
                } else if n <= front.len() {
                    assert(front.take(n) == front);
                } else {
                    lemma_scan_concat(scan, front, written(*value).take(n - front.len()));
                    lemma_prefix_of_text(scan, *value, n - front.len());
                }
            },
            JsonText::Spaced(before, inner, after) => {
                let front = before + written(*inner);
                lemma_scan_word(scan, before);
                lemma_scan_text(scan, *inner);
                lemma_scan_concat(scan, before, written(*inner));
                lemma_take_concat(front, after, n);
                if n <= before.len() {
                    lemma_take_concat(before, written(*inner), n);
                    lemma_prefix_of_word(scan, before, n);
                } else if n <= front.len() {
                    lemma_take_concat(before, written(*inner), n);
                    lemma_scan_concat(scan, before, written(*inner).take(n - before.len()));
                    lemma_prefix_of_text(scan, *inner, n - before.len());
                } else {
                    lemma_scan_concat(scan, front, after.take(n - front.len()));
                    lemma_prefix_of_word(scan, after, n - front.len());
                }
            },
        }
    }
}

proof fn lemma_prefix_around(scan: Scan, a: u8, inner: Seq<u8>, b: u8, n: int)
    requires
        1 <= n <= inner.len() + 1,
    ensures
        scan_from(scan, (seq![a] + inner + seq![b]).take(n)) == scan_from(
            scan.next(a),
            inner.take(n - 1),
        ),
{
    assert((seq![a] + inner + seq![b]).take(n) =~= seq![a] + inner.take(n - 1));
    lemma_scan_concat(scan, seq![a], inner.take(n - 1));
    lemma_scan_one(scan, a);
}

proof fn lemma_prefix_of_items(scan: Scan, items: Seq<JsonText>, n: int)
    requires
        outside(scan),
        scan.depth >= 2,
        forall|i: int| 0 <= i < items.len() ==> wf(#[trigger] items[i]),
        0 <= n <= joined(items).len(),
    ensures
        deeper(scan, scan_from(scan, joined(items).take(n))),
    decreases items,
{
    if items.len() == 0 {
        assert(joined(items).take(n) == Seq::<u8>::empty());
    } else if items.len() == 1 {
        assert(wf(items[0]));
        lemma_prefix_of_text(scan, items[0], n);
    } else {
        let m = items.len() - 1;
        let before = items.subrange(0, m);
        assert forall|i: int| 0 <= i < before.len() implies wf(#[trigger] before[i]) by {
            assert(before[i] == items[i]);
        }
        assert(wf(items[m]));
        let front = joined(before) + seq![0x2cu8];
        lemma_scan_items(scan, before);
        lemma_scan_concat(scan, joined(before), seq![0x2cu8]);
        lemma_scan_one(scan, 0x2c);
        lemma_take_concat(front, written(items[m]), n);
        if n <= joined(before).len() {
            lemma_take_concat(joined(before), seq![0x2cu8], n);
            lemma_prefix_of_items(scan, before, n);
        } else if n <= front.len() {
            assert(front.take(n) == front);
        } else {
            lemma_scan_concat(scan, front, written(items[m]).take(n - front.len()));
            lemma_prefix_of_text(scan, items[m], n - front.len());
        }
    }
}

proof fn lemma_objects_grow(scan: Scan, bytes: Seq<u8>)
    ensures
        scan_from(scan, bytes).objects >= scan.objects,
    decreases bytes.len(),
{
    if bytes.len() > 0 {
        lemma_objects_grow(scan, bytes.drop_last());
    }
}

proof fn lemma_white_space_stops(bytes: Seq<u8>, i: int, e: int)
    requires
        0 <= i <= e < bytes.len(),
        bytes[e] == CLOSING_BRACE,
    ensures
        i <= after_white_space(bytes, i) <= e,
    decreases e - i,
{
    if i < e && white_space(bytes[i] as char) {
        lemma_white_space_stops(bytes, i + 1, e);
    }
}

proof fn lemma_same_white_space(whole: Seq<u8>, part: Seq<u8>, at: int, i: int)
    requires
        0 <= at,
        at + part.len() <= whole.len(),
        forall|k: int| 0 <= k < part.len() ==> whole[at + k] == #[trigger] part[k],
        0 <= i < part.len(),
        part[part.len() - 1] == CLOSING_BRACE,
    ensures
        after_white_space(whole, at + i) == at + after_white_space(part, i),
    decreases part.len() - i,
{
    assert(whole[at + i] == part[i]);
    if i < part.len() - 1 && white_space(part[i] as char) {
        lemma_same_white_space(whole, part, at, i + 1);
        assert(at + (i + 1) == at + i + 1);
    }
}

proof fn lemma_same_occurrence(
    whole: Seq<u8>,
    part: Seq<u8>,
    at: int,
    pattern: Seq<u8>,
    i: int,
)
    requires
        0 <= at,
        at + part.len() <= whole.len(),
        forall|k: int| 0 <= k < part.len() ==> whole[at + k] == #[trigger] part[k],
        0 <= i < part.len(),
        part[part.len() - 1] == CLOSING_BRACE,
        forall|k: int| 0 <= k < pattern.len() ==> #[trigger] pattern[k] != CLOSING_BRACE,
    ensures
        occurs_at(whole, pattern, at + i) == occurs_at(part, pattern, i),
{
    let e = part.len() - 1;
    let n = pattern.len() as int;
    if occurs_at(whole, pattern, at + i) {
        if i + n > e {
            assert(whole.subrange(at + i, at + i + n)[e - i] == whole[at + e]);
            assert(whole[at + e] == part[e]);
            assert(pattern[e - i] != CLOSING_BRACE);
        }
        assert forall|k: int| 0 <= k < n implies part[i + k] == #[trigger] pattern[k] by {
            assert(whole.subrange(at + i, at + i + n)[k] == pattern[k]);
            assert(whole[at + (i + k)] == part[i + k]);
        }
        assert(part.subrange(i, i + n) =~= pattern);
    }
    if occurs_at(part, pattern, i) {
        assert forall|k: int| 0 <= k < n implies whole[at + i + k] == #[trigger] pattern[k] by {
            assert(part.subrange(i, i + n)[k] == pattern[k]);
            assert(whole[at + (i + k)] == part[i + k]);
        }
        assert(whole.subrange(at + i, at + i + n) =~= pattern);
    }
}

/// A reply in a batch is judged as it would be on its own: where `reply` is an object that stands
/// directly in the array `before + reply + after`, a key in it is the first of its reply, and its
/// value not `null`, exactly if that is so of the reply alone. So an error in any reply is found.
pub proof fn law_reply_judged_on_its_own(
    before: Seq<u8>,
    members: Seq<JsonText>,
    after: Seq<u8>,
    i: int,
)
    requires
        wf(JsonText::Object(members)),
        looks_like_batch(before + written(JsonText::Object(members)) + after),
        ({
            let scan = scan_from(Scan::start(), before);
            scan.depth == 1 && !scan.in_string && !scan.escaped
        }),
        0 <= i < written(JsonText::Object(members)).len(),
    ensures
        ({
            let reply = written(JsonText::Object(members));
            let whole = before + reply + after;
            let at = before.len() + i;
            &&& first_key_at(whole, at) == first_key_at(reply, i)
            &&& first_key_at(reply, i) ==> value_not_null(whole, at) == value_not_null(reply, i)
            &&& reports_error(reply) ==> reports_error(whole)
        }),
{
    let reply = written(JsonText::Object(members));
    let whole = before + reply + after;
    lemma_reply_key(before, members, after, i);
    if reports_error(reply) {
        let k = choose|k: int| #[trigger] first_key_at(reply, k) && value_not_null(reply, k);
        lemma_reply_key(before, members, after, k);
        assert(first_key_at(whole, before.len() + k));
    }
}

proof fn lemma_reply_key(before: Seq<u8>, members: Seq<JsonText>, after: Seq<u8>, i: int)
    requires
        wf(JsonText::Object(members)),
        looks_like_batch(before + written(JsonText::Object(members)) + after),
        outside(scan_from(Scan::start(), before)),
        scan_from(Scan::start(), before).depth == 1,
        0 <= i < written(JsonText::Object(members)).len(),
    ensures
        ({
            let reply = written(JsonText::Object(members));
            let whole = before + reply + after;
            let at = before.len() + i;
            &&& first_key_at(whole, at) == first_key_at(reply, i)
            &&& first_key_at(reply, i) ==> value_not_null(whole, at) == value_not_null(reply, i)
        }),
{
    let reply = written(JsonText::Object(members));
    let whole = before + reply + after;
    let at = before.len() as int;
    let e = reply.len() - 1;
    let scan = scan_from(Scan::start(), before);
    assert forall|k: int| 0 <= k < reply.len() implies whole[at + k] == #[trigger] reply[k] by {}
    assert(reply[e] == CLOSING_BRACE);
    assert(reply[0] == OPENING_BRACE);
    assert(!looks_like_batch(reply)) by {
        if looks_like_batch(reply) {
            let k = choose|k: int|
                0 <= k < reply.len() && #[trigger] reply[k] == OPENING_BRACKET && forall|j: int|
                    0 <= j < k ==> ascii_white_space(#[trigger] reply[j]);
            assert(ascii_white_space(reply[0]));
        }
    }
    assert forall|k: int| 0 <= k < reply.len() implies #[trigger] occurs_at(
        whole,
        ERROR_KEY@,
        at + k,
    ) == occurs_at(reply, ERROR_KEY@, k) by {
        lemma_same_occurrence(whole, reply, at, ERROR_KEY@, k);
    }
    assert(!occurs_at(reply, ERROR_KEY@, 0)) by {
        if occurs_at(reply, ERROR_KEY@, 0) {
            assert(reply.subrange(0, ERROR_KEY@.len() as int)[0] == ERROR_KEY@[0]);
        }
    }
    assert forall|k: int| 1 <= k < reply.len() implies #[trigger] reply_of(whole, at + k)
        == scan.objects + 1 by {
        assert(whole.take(at + k) =~= before + reply.take(k));
        lemma_scan_concat(Scan::start(), before, reply.take(k));
        lemma_prefix_around(scan, OPENING_BRACE, joined(members), CLOSING_BRACE, k);
        lemma_prefix_of_items(scan.next(OPENING_BRACE), members, k - 1);
    }
    assert forall|k: int| 0 <= k < at implies #[trigger] reply_of(whole, k) <= scan.objects by {
        assert(whole.take(k) =~= before.take(k));
        assert(before == before.take(k) + before.skip(k));
        lemma_scan_concat(Scan::start(), before.take(k), before.skip(k));
        lemma_objects_grow(scan_from(Scan::start(), before.take(k)), before.skip(k));
    }
    if occurs_at(reply, ERROR_KEY@, i) {
        if first_key_at(reply, i) {
            assert forall|k: int|
                0 <= k < at + i && #[trigger] occurs_at(whole, ERROR_KEY@, k) implies reply_of(
                whole,
                k,
            ) != reply_of(whole, at + i) by {
                if k >= at {
                    assert(occurs_at(whole, ERROR_KEY@, at + (k - at)) == occurs_at(
                        reply,
                        ERROR_KEY@,
                        k - at,
                    ));
                    assert(reply_of(reply, k - at) == reply_of(reply, i));
                } else {
                    assert(reply_of(whole, k) <= scan.objects);
                }
            }
            lemma_value(whole, reply, at, i);
        }
        if first_key_at(whole, at + i) {
            assert forall|k: int|
                0 <= k < i && #[trigger] occurs_at(reply, ERROR_KEY@, k) implies reply_of(reply, k)
                != reply_of(reply, i) by {
                assert(occurs_at(whole, ERROR_KEY@, at + k));
                assert(reply_of(whole, at + k) == reply_of(whole, at + i));
            }
        }
    }
}

proof fn lemma_value(whole: Seq<u8>, reply: Seq<u8>, at: int, i: int)
    requires
        0 <= at,
        at + reply.len() <= whole.len(),
        forall|k: int| 0 <= k < reply.len() ==> whole[at + k] == #[trigger] reply[k],
        reply.len() > 0,
        reply[reply.len() - 1] == CLOSING_BRACE,
        occurs_at(reply, ERROR_KEY@, i),
    ensures
        value_not_null(whole, at + i) == value_not_null(reply, i),
{
    let e = reply.len() - 1;
    let start = i + ERROR_KEY@.len();
    assert(start <= e) by {
        if start > e {
            assert(reply.subrange(i, start)[e - i] == ERROR_KEY@[e - i]);
        }
    }
    lemma_white_space_stops(reply, start, e);
    lemma_same_white_space(whole, reply, at, start);
    assert(at + i + ERROR_KEY@.len() == at + start);
    lemma_same_occurrence(whole, reply, at, NULL_VALUE@, after_white_space(reply, start));
}

/// The members of the object that `item` is, with or without white space around it.
pub open spec fn members_of(item: JsonText) -> Option<Seq<JsonText>> {
    match item {
        JsonText::Object(members) => Some(members),
        JsonText::Spaced(_, inner, _) => match *inner {
            JsonText::Object(members) => Some(members),
            _ => None,
        },
        _ => None,
    }
}

/// The reply that `item` is, on its own.
pub open spec fn reply_text(item: JsonText) -> Seq<u8> {
    written(JsonText::Object(members_of(item).unwrap()))
}

/// An array of replies reports an error exactly if one of the replies does on its own.
pub proof fn law_batch_reports_what_its_replies_report(items: Seq<JsonText>)
    requires
        wf(JsonText::Array(items)),
        forall|i: int| 0 <= i < items.len() ==> members_of(#[trigger] items[i]) is Some,
    ensures
        reports_error(written(JsonText::Array(items))) <==> exists|i: int|
            0 <= i < items.len() && reports_error(reply_text(#[trigger] items[i])),
{
    let whole = written(JsonText::Array(items));
    assert(whole[0] == OPENING_BRACKET);
    assert(looks_like_batch(whole));
    if reports_error(whole) {
        let p = choose|p: int| #[trigger] first_key_at(whole, p) && value_not_null(whole, p);
        assert(whole.subrange(p, p + ERROR_KEY@.len())[0] == ERROR_KEY@[0]);
        assert(whole[p] == QUOTE);
        assert(whole[whole.len() - 1] == CLOSING_BRACKET);
        assert(whole[p] == joined(items)[p - 1]);
        let (i, before, after) = lemma_quote_in_reply(items, p - 1);
        lemma_reply_stands_in_batch(items, i, before, after);
        lemma_reply_key(
            seq![OPENING_BRACKET] + before,
            members_of(items[i]).unwrap(),
            after + seq![CLOSING_BRACKET],
            p - 1 - before.len(),
        );
        assert(reports_error(reply_text(items[i])));
    }
    if exists|i: int| 0 <= i < items.len() && reports_error(reply_text(#[trigger] items[i])) {
        let i = choose|i: int| 0 <= i < items.len() && reports_error(reply_text(#[trigger] items[i]));
        let (before, after) = lemma_reply_in_items(items, i);
        lemma_reply_stands_in_batch(items, i, before, after);
        law_reply_judged_on_its_own(
            seq![OPENING_BRACKET] + before,
            members_of(items[i]).unwrap(),
            after + seq![CLOSING_BRACKET],
            0,
        );
    }
}

/// The reply that the `i`th item is stands between `before` and `after`, with no string open before
/// it.
spec fn stands_between(items: Seq<JsonText>, i: int, before: Seq<u8>, after: Seq<u8>) -> bool {
    &&& 0 <= i < items.len()
    &&& joined(items) == before + reply_text(items[i]) + after
    &&& forall|scan: Scan|
        outside(scan) && scan.depth >= 1 ==> outside(#[trigger] scan_from(scan, before))
            && scan_from(scan, before).depth == scan.depth
}

proof fn lemma_reply_stands_in_batch(
    items: Seq<JsonText>,
    i: int,
    before: Seq<u8>,
    after: Seq<u8>,
)
    requires
        stands_between(items, i, before, after),
        wf(items[i]),
        members_of(items[i]) is Some,
    ensures
        ({
            let front = seq![OPENING_BRACKET] + before;
            let scan = scan_from(Scan::start(), front);
            &&& written(JsonText::Array(items)) == front + reply_text(items[i]) + (after
                + seq![CLOSING_BRACKET])
            &&& outside(scan)
            &&& scan.depth == 1
            &&& wf(JsonText::Object(members_of(items[i]).unwrap()))
        }),
{
    let start = Scan::start().next(OPENING_BRACKET);
    lemma_scan_concat(Scan::start(), seq![OPENING_BRACKET], before);
    lemma_scan_one(Scan::start(), OPENING_BRACKET);
    assert(outside(scan_from(start, before)));
    let front = seq![OPENING_BRACKET] + before;
    assert(seq![OPENING_BRACKET] + (before + reply_text(items[i]) + after) + seq![CLOSING_BRACKET]
        == front + reply_text(items[i]) + (after + seq![CLOSING_BRACKET]));
}

proof fn lemma_one_reply(item: JsonText) -> (r: (Seq<u8>, Seq<u8>))
    requires
        wf(item),
        members_of(item) is Some,
    ensures
        written(item) == r.0 + reply_text(item) + r.1,
        without_structure(r.0),
        without_structure(r.1),
{
    match item {
        JsonText::Spaced(before, inner, after) => (before, after),
        _ => {
            let none = Seq::<u8>::empty();
            assert(written(item) == none + reply_text(item) + none);
            (none, none)
        },
    }
}

proof fn lemma_reply_in_items(items: Seq<JsonText>, i: int) -> (r: (Seq<u8>, Seq<u8>))
    requires
        0 <= i < items.len(),
        forall|k: int|
            0 <= k < items.len() ==> wf(#[trigger] items[k]) && members_of(items[k]) is Some,
    ensures
        stands_between(items, i, r.0, r.1),
    decreases items.len(),
{
    let n = items.len() - 1;
    let front = items.subrange(0, n);
    assert forall|k: int| 0 <= k < front.len() implies wf(#[trigger] front[k]) && members_of(
        front[k],
    ) is Some by {
        assert(front[k] == items[k]);
    }
    assert(wf(items[n]));
    if i < n {
        let (before, after) = lemma_reply_in_items(front, i);
        let tail = after + seq![0x2cu8] + written(items[n]);
        assert(front[i] == items[i]);
        assert(before + reply_text(items[i]) + after + seq![0x2cu8] + written(items[n]) == before
            + reply_text(items[i]) + tail);
        (before, tail)
    } else {
        let (lead, trail) = lemma_one_reply(items[n]);
        lemma_last_reply(items, lead, trail);
        (ahead_of_last(items) + lead, trail)
    }
}

/// What stands before the last of `items` where they are written one after the other.
spec fn ahead_of_last(items: Seq<JsonText>) -> Seq<u8> {
    if items.len() <= 1 {
        Seq::empty()
    } else {
        joined(items.subrange(0, items.len() - 1)) + seq![0x2cu8]
    }
}

proof fn lemma_last_reply(items: Seq<JsonText>, lead: Seq<u8>, trail: Seq<u8>)
    requires
        items.len() > 0,
        forall|k: int|
            0 <= k < items.len() ==> wf(#[trigger] items[k]) && members_of(items[k]) is Some,
        written(items.last()) == lead + reply_text(items.last()) + trail,
        without_structure(lead),
    ensures
        stands_between(items, items.len() - 1, ahead_of_last(items) + lead, trail),
{
    let n = items.len() - 1;
    let front = items.subrange(0, n);
    assert forall|k: int| 0 <= k < front.len() implies wf(#[trigger] front[k]) by {
        assert(front[k] == items[k]);
    }
    let ahead = ahead_of_last(items);
    let before = ahead + lead;
    assert(joined(items) == ahead + written(items[n]));
    assert(ahead + (lead + reply_text(items[n]) + trail) == before + reply_text(items[n]) + trail);
    assert forall|scan: Scan| outside(scan) && scan.depth >= 1 implies outside(
        #[trigger] scan_from(scan, before),
    ) && scan_from(scan, before).depth == scan.depth by {
        lemma_scan_concat(scan, ahead, lead);
        if n > 0 {
            lemma_scan_concat(scan, joined(front), seq![0x2cu8]);
            lemma_scan_items(scan, front);
            lemma_scan_one(counted(scan, objects_among(front)), 0x2c);
        }
        lemma_scan_word(scan_from(scan, ahead), lead);
    }
}

proof fn lemma_quote_in_reply(items: Seq<JsonText>, q: int) -> (r: (int, Seq<u8>, Seq<u8>))
    requires
        0 <= q < joined(items).len(),
        joined(items)[q] == QUOTE,
        forall|k: int|
            0 <= k < items.len() ==> wf(#[trigger] items[k]) && members_of(items[k]) is Some,
    ensures
        stands_between(items, r.0, r.1, r.2),
        r.1.len() <= q < r.1.len() + reply_text(items[r.0]).len(),
    decreases items.len(),
{
    let n = items.len() - 1;
    let front = items.subrange(0, n);
    assert forall|k: int| 0 <= k < front.len() implies wf(#[trigger] front[k]) && members_of(
        front[k],
    ) is Some by {
        assert(front[k] == items[k]);
    }
    assert(wf(items[n]));
    if n > 0 && q < joined(front).len() {
        assert(joined(items)[q] == joined(front)[q]);
        let (i, before, after) = lemma_quote_in_reply(front, q);
        let tail = after + seq![0x2cu8] + written(items[n]);
        assert(front[i] == items[i]);
        assert(before + reply_text(items[i]) + after + seq![0x2cu8] + written(items[n]) == before
            + reply_text(items[i]) + tail);
        (i, before, tail)
    } else {
        let (lead, trail) = lemma_one_reply(items[n]);
        lemma_last_reply(items, lead, trail);
        let before = ahead_of_last(items) + lead;
        let whole = before + reply_text(items[n]) + trail;
        let end = before.len() + reply_text(items[n]).len();
        if q < ahead_of_last(items).len() {
            assert(whole[q] == 0x2c);
        } else if q < before.len() {
            assert(whole[q] == lead[q - ahead_of_last(items).len()]);
        } else if q >= end {
            assert(whole[q] == trail[q - end]);
        }
        (n, before, trail)
    }
}

} // verus!
