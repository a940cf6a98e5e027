//! Span events and links as a JSON array bounded in bytes: what does not fit is
//! counted, and a diagnostic entry records what was dropped.

use vstd::prelude::*;
use vstd::string::StringExecFns;
use vstd::utf8::encode_utf8;

use crate::otlp::traces::MAX_METADATA_JSON_BYTES;

use crate::json::{count_members, flag_members, json_object, json_object_text, text_members};
use crate::strings::{join_with, string_views};

verus! {

/// The members of a diagnostic: what was dropped (`kind`, `reason`) and the counts
/// (`producer_dropped`, `cortex_omitted`, `maximum_bytes`).
pub open spec fn diagnostic_fields(kind: Seq<char>, producer_dropped: u32, omitted: usize, reason: Seq<char>, maximum: usize) -> Seq<char> {
    json_object_text(
        seq![("kind"@, kind), ("reason"@, reason)],
        Seq::empty(),
        seq![("producer_dropped"@, producer_dropped as u64), ("cortex_omitted"@, omitted as u64), ("maximum_bytes"@, maximum as u64)],
    )
}

/// The JSON text of the diagnostic entry: the object whose one member
/// `_cortex_diagnostics` holds the diagnostic's members.
pub open spec fn diagnostic_text(kind: Seq<char>, producer_dropped: u32, omitted: usize, reason: Seq<char>, maximum: usize) -> Seq<char> {
    "{\"_cortex_diagnostics\":"@ + diagnostic_fields(kind, producer_dropped, omitted, reason, maximum) + "}"@
}

/// The diagnostic entry's text (`diagnostic_text`).
fn diagnostic_json(kind: &str, producer_dropped: u32, omitted: usize, reason: &str, maximum: usize) -> (r: String)
    ensures
        r@ == diagnostic_text(kind@, producer_dropped, omitted, reason@, maximum),
        byte_len(r@) <= usize::MAX,
{
    let texts: Vec<(String, String)> = vec![("kind".to_owned(), kind.to_owned()), ("reason".to_owned(), reason.to_owned())];
    let flags: Vec<(String, bool)> = Vec::new();
    let counts: Vec<(String, u64)> = vec![
        ("producer_dropped".to_owned(), producer_dropped as u64),
        ("cortex_omitted".to_owned(), omitted as u64),
        ("maximum_bytes".to_owned(), maximum as u64),
    ];
    assert(text_members(texts@) =~= seq![("kind"@, kind@), ("reason"@, reason@)]);
    assert(flag_members(flags@) =~= Seq::<(Seq<char>, bool)>::empty());
    assert(count_members(counts@) =~= seq![("producer_dropped"@, producer_dropped as u64), ("cortex_omitted"@, omitted as u64), ("maximum_bytes"@, maximum as u64)]);
    let inner = json_object(texts, flags, counts);
    let mut out = "{\"_cortex_diagnostics\":".to_owned();
    out.append(inner.as_str());
    out.append("}");
    proof {
        let prefix = "{\"_cortex_diagnostics\":"@;
        reveal_strlit("{\"_cortex_diagnostics\":");
        reveal_strlit("}");
        assert(vstd::utf8::is_ascii_chars(prefix));
        vstd::utf8::is_ascii_chars_encode_utf8(prefix);
        assert("}"@ =~= seq!['}']);
        lemma_ascii_byte_len('}');
        lemma_encode_concat(prefix, inner@);
        lemma_encode_concat(prefix + inner@, "}"@);
    }
    out
}

/// Bytes of a text.
pub open spec fn byte_len(s: Seq<char>) -> nat {
    encode_utf8(s).len()
}

/// A comma before the next item when there is one already.
pub open spec fn separator(items: Seq<Seq<char>>) -> nat {
    if items.len() > 0 { 1 } else { 0 }
}

/// Bytes of the array `[item,item,...]`.
pub open spec fn array_bytes(items: Seq<Seq<char>>) -> nat
    decreases items.len(),
{
    if items.len() == 0 {
        2
    } else {
        array_bytes(items.drop_last()) + separator(items.drop_last()) + byte_len(items.last())
    }
}

/// The array text.
pub open spec fn render(items: Seq<Seq<char>>) -> Seq<char> {
    "["@ + join_with(items, ","@) + "]"@
}

/// The array as plain values: the items kept, whether later items are refused, and
/// how many were left out.
pub struct ArrayView {
    pub items: Seq<Seq<char>>,
    pub truncating: bool,
    pub omitted: nat,
}

/// A JSON array being filled, kept within [`MAX_METADATA_JSON_BYTES`].
pub struct BoundedJsonArray {
    items: Vec<String>,
    encoded_bytes: usize,
    truncating: bool,
    omitted: usize,
}

impl View for BoundedJsonArray {
    type V = ArrayView;

    closed spec fn view(&self) -> ArrayView {
        ArrayView { items: string_views(self.items@), truncating: self.truncating, omitted: self.omitted as nat }
    }
}

/// Adding an item: once one did not fit, every later item is left out too.
pub open spec fn push_spec(v: ArrayView, item: Seq<char>) -> ArrayView {
    if v.truncating {
        ArrayView { omitted: v.omitted + 1, ..v }
    } else if array_bytes(v.items) + separator(v.items) + byte_len(item) > MAX_METADATA_JSON_BYTES {
        ArrayView { truncating: true, omitted: v.omitted + 1, ..v }
    } else {
        ArrayView { items: v.items.push(item), ..v }
    }
}

/// The reason a diagnostic gives.
pub open spec fn reason_text(omitted: nat) -> Seq<char> {
    if omitted > 0 { "max_serialized_bytes"@ } else { "producer_reported_drop"@ }
}

/// Closing an array that dropped something: the diagnostic entry is appended, and
/// while it does not fit the last kept item gives way (and counts as left out); with
/// no item left to give way, the array is `[]`.
pub open spec fn fit_diagnostic(items: Seq<Seq<char>>, omitted: nat, producer_dropped: u32, kind: Seq<char>) -> Seq<char>
    decreases items.len(),
{
    let d = diagnostic_text(kind, producer_dropped, omitted as usize, reason_text(omitted), MAX_METADATA_JSON_BYTES);
    if array_bytes(items) + separator(items) + byte_len(d) <= MAX_METADATA_JSON_BYTES {
        render(items.push(d))
    } else if items.len() > 0 {
        fit_diagnostic(items.drop_last(), omitted + 1, producer_dropped, kind)
    } else {
        "[]"@
    }
}

/// The finished array: as filled when nothing was dropped, else with the diagnostic.
pub open spec fn finish_spec(v: ArrayView, producer_dropped: u32, kind: Seq<char>) -> Seq<char> {
    if producer_dropped == 0 && v.omitted == 0 {
        render(v.items)
    } else {
        fit_diagnostic(v.items, v.omitted, producer_dropped, kind)
    }
}

proof fn lemma_encode_concat(a: Seq<char>, b: Seq<char>)
    ensures
        encode_utf8(a + b) == encode_utf8(a) + encode_utf8(b),
    decreases a.len(),
{
    if a.len() == 0 {
        assert(a + b =~= b);
        assert(encode_utf8(a) =~= Seq::<u8>::empty());
        assert(encode_utf8(a) + encode_utf8(b) =~= encode_utf8(b));
    } else {
        lemma_encode_concat(a.drop_first(), b);
        assert((a + b).drop_first() =~= a.drop_first() + b);
        assert((a + b)[0] == a[0]);
        assert(encode_utf8(a + b) =~= encode_utf8(a) + encode_utf8(b));
    }
}

proof fn lemma_ascii_byte_len(c: char)
    requires
        '\0' <= c <= '\u{7f}',
    ensures
        byte_len(seq![c]) == 1,
{
    assert(vstd::utf8::is_ascii_chars(seq![c]));
    vstd::utf8::is_ascii_chars_encode_utf8(seq![c]);
}

/// The array text takes exactly [`array_bytes`] bytes.
proof fn lemma_render_len(items: Seq<Seq<char>>)
    ensures
        byte_len(render(items)) == array_bytes(items),
        byte_len(join_with(items, ","@)) + 2 == array_bytes(items),
    decreases items.len(),
{
    reveal_strlit("[");
    reveal_strlit("]");
    reveal_strlit(",");
    assert("["@ =~= seq!['[']);
    assert("]"@ =~= seq![']']);
    assert(","@ =~= seq![',']);
    lemma_ascii_byte_len('[');
    lemma_ascii_byte_len(']');
    lemma_ascii_byte_len(',');
    let j = join_with(items, ","@);
    if items.len() == 0 {
        assert(j =~= Seq::<char>::empty());
        assert(encode_utf8(j) =~= Seq::<u8>::empty());
        assert(byte_len(j) + 2 == array_bytes(items));
    } else if items.len() == 1 {
        assert(items.drop_last() =~= Seq::<Seq<char>>::empty());
        assert(j == items[0]);
        assert(items.last() == items[0]);
        assert(array_bytes(items.drop_last()) == 2);
        assert(byte_len(j) + 2 == array_bytes(items));
    } else {
        let prefix = join_with(items.drop_last(), ","@);
        lemma_render_len(items.drop_last());
        lemma_encode_concat(prefix + ","@, items.last());
        lemma_encode_concat(prefix, ","@);
        assert(j == prefix + ","@ + items.last());
        assert(byte_len(j) == byte_len(prefix) + 1 + byte_len(items.last()));
        assert(separator(items.drop_last()) == 1);
        assert(byte_len(j) + 2 == array_bytes(items));
    }
    lemma_encode_concat("["@, j);
    lemma_encode_concat("["@ + j, "]"@);
    assert(render(items) == "["@ + j + "]"@);
    assert(byte_len(render(items)) == 1 + byte_len(j) + 1);
}

/// Every finished array fits the byte cap.
pub proof fn lemma_finished_within_cap(v: ArrayView, producer_dropped: u32, kind: Seq<char>)
    requires
        array_bytes(v.items) <= MAX_METADATA_JSON_BYTES,
    ensures
        byte_len(finish_spec(v, producer_dropped, kind)) <= MAX_METADATA_JSON_BYTES,
{
    if producer_dropped == 0 && v.omitted == 0 {
        lemma_render_len(v.items);
    } else {
        lemma_fit_within_cap(v.items, v.omitted, producer_dropped, kind);
    }
}

proof fn lemma_fit_within_cap(items: Seq<Seq<char>>, omitted: nat, producer_dropped: u32, kind: Seq<char>)
    ensures
        byte_len(fit_diagnostic(items, omitted, producer_dropped, kind)) <= MAX_METADATA_JSON_BYTES,
    decreases items.len(),
{
    let d = diagnostic_text(kind, producer_dropped, omitted as usize, reason_text(omitted), MAX_METADATA_JSON_BYTES);
    if array_bytes(items) + separator(items) + byte_len(d) <= MAX_METADATA_JSON_BYTES {
        let pushed = items.push(d);
        lemma_render_len(pushed);
        assert(pushed.drop_last() =~= items);
        assert(pushed.last() == d);
        assert(array_bytes(pushed) == array_bytes(items) + separator(items) + byte_len(d));
    } else if items.len() > 0 {
        lemma_fit_within_cap(items.drop_last(), omitted + 1, producer_dropped, kind);
    } else {
        reveal_strlit("[]");
        reveal_strlit("[");
        reveal_strlit("]");
        lemma_render_len(Seq::<Seq<char>>::empty());
        assert(join_with(Seq::<Seq<char>>::empty(), ","@) =~= Seq::<char>::empty());
        assert("[]"@ =~= render(Seq::<Seq<char>>::empty()));
    }
}

impl BoundedJsonArray {
    /// The array is consistent: its byte count is that of its text, within the cap.
    pub closed spec fn wf(&self) -> bool {
        &&& self.encoded_bytes as nat == array_bytes(string_views(self.items@))
        &&& array_bytes(string_views(self.items@)) <= MAX_METADATA_JSON_BYTES
    }

    /// An empty array.
    pub fn new() -> (r: Self)
        ensures
            r.wf(),
            r@ == (ArrayView { items: Seq::empty(), truncating: false, omitted: 0 }),
    {
        let r = BoundedJsonArray { items: Vec::new(), encoded_bytes: 2, truncating: false, omitted: 0 };
        assert(string_views(r.items@) =~= Seq::<Seq<char>>::empty());
        r
    }

    /// Add an item, given as its JSON text.
    pub fn push(&mut self, encoded: String)
        requires
            old(self).wf(),
            old(self)@.omitted < usize::MAX,
            byte_len(encoded@) <= usize::MAX,
        ensures
            final(self).wf(),
            final(self)@ == push_spec(old(self)@, encoded@),
    {
        if self.truncating {
            self.omitted = self.omitted + 1;
            return;
        }
        let separator: usize = if self.items.len() > 0 { 1 } else { 0 };
        let len = encoded.as_str().len();
        assert(len as nat == byte_len(encoded@));
        if len > MAX_METADATA_JSON_BYTES || separator + len > MAX_METADATA_JSON_BYTES - self.encoded_bytes {
            self.truncating = true;
            self.omitted = self.omitted + 1;
            return;
        }
        let ghost before = string_views(self.items@);
        self.encoded_bytes = self.encoded_bytes + separator + len;
        self.items.push(encoded);
        assert(string_views(self.items@) =~= before.push(encoded@));
        assert(string_views(self.items@).drop_last() =~= before);
    }

    fn render_items(items: &Vec<String>) -> (r: String)
        ensures
            r@ == render(string_views(items@)),
    {
        let ghost ts = string_views(items@);
        let mut out = "[".to_owned();
        let mut i: usize = 0;
        proof {
            reveal_strlit("[");
        }
        assert(ts.take(0) =~= Seq::<Seq<char>>::empty());
        while i < items.len()
            invariant
                i <= items.len(),
                ts == string_views(items@),
                out@ == "["@ + join_with(ts.take(i as int), ","@),
            decreases items.len() - i,
        {
            assert(ts.take(i + 1).drop_last() =~= ts.take(i as int));
            assert(ts.take(i + 1).last() == items@[i as int]@);
            if i > 0 {
                out.append(",");
            } else {
                assert(ts.take(1) =~= seq![items@[0]@]);
            }
            out.append(items[i].as_str());
            proof {
                if i > 0 {
                    assert(out@ =~= "["@ + (join_with(ts.take(i as int), ","@) + ","@ + items@[i as int]@));
                } else {
                    assert(out@ =~= "["@ + join_with(ts.take(1), ","@));
                }
            }
            i += 1;
        }
        assert(ts.take(i as int) =~= ts);
        out.append("]");
        out
    }

    /// The array text: when the producer dropped entries or some were left out, a
    /// diagnostic entry is added, making room for it by dropping trailing items.
    pub fn finish(self, producer_dropped: u32, kind: &'static str) -> (r: String)
        requires
            self.wf(),
            self@.omitted + self@.items.len() < usize::MAX,
        ensures
            r@ == finish_spec(self@, producer_dropped, kind@),
            byte_len(r@) <= MAX_METADATA_JSON_BYTES,
    {
        proof {
            lemma_finished_within_cap(self@, producer_dropped, kind@);
        }
        if producer_dropped == 0 && self.omitted == 0 {
            return Self::render_items(&self.items);
        }
        let mut items = self.items;
        let mut encoded_bytes = self.encoded_bytes;
        let mut omitted = self.omitted;
        proof {
            reveal_strlit("max_serialized_bytes");
            reveal_strlit("producer_reported_drop");
        }
        loop
            invariant
                encoded_bytes as nat == array_bytes(string_views(items@)),
                array_bytes(string_views(items@)) <= MAX_METADATA_JSON_BYTES,
                omitted + items@.len() < usize::MAX,
                byte_len(finish_spec(self@, producer_dropped, kind@)) <= MAX_METADATA_JSON_BYTES,
                finish_spec(self@, producer_dropped, kind@) == fit_diagnostic(string_views(items@), omitted as nat, producer_dropped, kind@),
            decreases items@.len(),
        {
            let reason = if omitted > 0 { "max_serialized_bytes" } else { "producer_reported_drop" };
            let diagnostic = diagnostic_json(kind, producer_dropped, omitted, reason, MAX_METADATA_JSON_BYTES);
            let separator: usize = if items.len() > 0 { 1 } else { 0 };
            let len = diagnostic.as_str().len();
            assert(len as nat == byte_len(diagnostic@));
            if len <= MAX_METADATA_JSON_BYTES && separator + len <= MAX_METADATA_JSON_BYTES - encoded_bytes {
                let ghost before = string_views(items@);
                items.push(diagnostic);
                assert(string_views(items@) =~= before.push(diagnostic@));
                return Self::render_items(&items);
            }
            if items.len() > 0 {
                let ghost before = string_views(items@);
                let removed = items.pop().unwrap();
                assert(string_views(items@) =~= before.drop_last());
                assert(removed@ == before.last());
                let removed_len = removed.as_str().len();
                assert(removed_len as nat == byte_len(before.last()));
                encoded_bytes = encoded_bytes - removed_len;
                if items.len() > 0 {
                    encoded_bytes = encoded_bytes - 1;
                }
                omitted = omitted + 1;
            } else {
                proof {
                    reveal_strlit("[]");
                }
                return "[]".to_owned();
            }
        }
    }
}

} // verus!
