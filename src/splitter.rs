//! Delimiter search and the record-splitting model.
use crate::buffer::{
    buffer_as_slice, buffer_bytes, buffer_extend, buffer_new, buffer_split_to, buffer_truncate,
};
use crate::charset::{charset_for_content_type, decoded_as, resolved_label, Charset};
use crate::metadata::HttpResponseMetadata;
use crate::render::string_texts;
use bytes::BytesMut;
use vstd::prelude::*;

verus! {

/// `delim` occurs in `buf` starting at byte offset `i`.
pub open spec fn matches_at(buf: Seq<u8>, delim: Seq<u8>, i: int) -> bool {
    &&& 0 <= i
    &&& i + delim.len() <= buf.len()
    &&& buf.subrange(i, i + delim.len()) == delim
}

/// The first offset at or after `from` where a non-empty `delim` occurs in `buf`.
pub open spec fn first_match_from(buf: Seq<u8>, delim: Seq<u8>, from: int) -> Option<int>
    decreases buf.len() - from,
{
    if delim.len() == 0 || from < 0 || from + delim.len() > buf.len() {
        None
    } else if matches_at(buf, delim, from) {
        Some(from)
    } else {
        first_match_from(buf, delim, from + 1)
    }
}

/// The first offset where a non-empty `delim` occurs in `buf`; an empty delimiter never matches.
pub open spec fn first_match(buf: Seq<u8>, delim: Seq<u8>) -> Option<int> {
    first_match_from(buf, delim, 0)
}

proof fn lemma_first_match_from(buf: Seq<u8>, delim: Seq<u8>, from: int)
    requires
        0 <= from,
    ensures
        first_match_from(buf, delim, from) matches Some(i) ==> {
            &&& from <= i
            &&& delim.len() > 0
            &&& matches_at(buf, delim, i)
            &&& forall|j: int| from <= j < i ==> !#[trigger] matches_at(buf, delim, j)
        },
        first_match_from(buf, delim, from) is None ==> delim.len() == 0 || forall|j: int|
            from <= j ==> !#[trigger] matches_at(buf, delim, j),
    decreases buf.len() - from,
{
    if delim.len() == 0 || from + delim.len() > buf.len() {
    } else if matches_at(buf, delim, from) {
    } else {
        lemma_first_match_from(buf, delim, from + 1);
    }
}

/// What `first_match` returns: the least offset of an occurrence, or `None` when there is none.
pub proof fn lemma_first_match(buf: Seq<u8>, delim: Seq<u8>)
    ensures
        first_match(buf, delim) matches Some(i) ==> {
            &&& delim.len() > 0
            &&& matches_at(buf, delim, i)
            &&& forall|j: int| 0 <= j < i ==> !#[trigger] matches_at(buf, delim, j)
        },
        first_match(buf, delim) is None ==> delim.len() == 0 || forall|j: int|
            !#[trigger] matches_at(buf, delim, j),
{
    lemma_first_match_from(buf, delim, 0);
}

/// The records that repeated draining cuts from `buf`: each ends at the first remaining
/// occurrence of `delim`, which is dropped.
pub open spec fn split_records(buf: Seq<u8>, delim: Seq<u8>) -> Seq<Seq<u8>>
    decreases buf.len(),
{
    match first_match(buf, delim) {
        Some(i) => if 0 <= i && 0 < delim.len() && i + delim.len() <= buf.len() {
            seq![buf.subrange(0, i)] + split_records(
                buf.subrange(i + delim.len(), buf.len() as int),
                delim,
            )
        } else {
            seq![]
        },
        None => seq![],
    }
}

/// What stays buffered after draining `buf`: the bytes after the last cut delimiter.
pub open spec fn split_rest(buf: Seq<u8>, delim: Seq<u8>) -> Seq<u8>
    decreases buf.len(),
{
    match first_match(buf, delim) {
        Some(i) => if 0 <= i && 0 < delim.len() && i + delim.len() <= buf.len() {
            split_rest(buf.subrange(i + delim.len(), buf.len() as int), delim)
        } else {
            buf
        },
        None => buf,
    }
}

/// `first_match` is the least offset of an occurrence.
proof fn lemma_first_match_is_least(buf: Seq<u8>, delim: Seq<u8>, i: int)
    requires
        delim.len() > 0,
        matches_at(buf, delim, i),
        forall|j: int| 0 <= j < i ==> !#[trigger] matches_at(buf, delim, j),
    ensures
        first_match(buf, delim) == Some(i),
{
    lemma_first_match(buf, delim);
    if first_match(buf, delim) is None {
        assert(!matches_at(buf, delim, i));
    }
}

/// Bytes appended after a complete occurrence do not move the first occurrence.
proof fn lemma_first_match_extend(a: Seq<u8>, b: Seq<u8>, delim: Seq<u8>)
    requires
        first_match(a, delim) is Some,
    ensures
        first_match(a + b, delim) == first_match(a, delim),
{
    lemma_first_match(a, delim);
    let i = first_match(a, delim)->0;
    let ab = a + b;
    assert(ab.subrange(i, i + delim.len()) =~= a.subrange(i, i + delim.len()));
    assert forall|j: int| 0 <= j < i implies !#[trigger] matches_at(ab, delim, j) by {
        assert(ab.subrange(j, j + delim.len()) =~= a.subrange(j, j + delim.len()));
        assert(!matches_at(a, delim, j));
    }
    lemma_first_match_is_least(ab, delim, i);
}

/// Draining `a + b` cuts the records of `a`, then those of what `a` left behind followed by `b`.
pub proof fn lemma_split_append(a: Seq<u8>, b: Seq<u8>, delim: Seq<u8>)
    ensures
        split_records(a + b, delim) == split_records(a, delim) + split_records(
            split_rest(a, delim) + b,
            delim,
        ),
        split_rest(a + b, delim) == split_rest(split_rest(a, delim) + b, delim),
    decreases a.len(),
{
    lemma_first_match(a, delim);
    match first_match(a, delim) {
        Some(i) => {
            lemma_first_match_extend(a, b, delim);
            let tail = a.subrange(i + delim.len(), a.len() as int);
            assert((a + b).subrange(0, i) =~= a.subrange(0, i));
            assert((a + b).subrange(i + delim.len(), (a + b).len() as int) =~= tail + b);
            lemma_split_append(tail, b, delim);
            assert(split_records(a + b, delim) =~= split_records(a, delim) + split_records(
                split_rest(a, delim) + b,
                delim,
            ));
        },
        None => {
            assert(split_records(a, delim) + split_records(a + b, delim) =~= split_records(
                a + b,
                delim,
            ));
        },
    }
}

/// With no occurrence of `delim` in `buf` (or an empty `delim`, which never matches), draining
/// cuts nothing and keeps every byte.
pub proof fn lemma_no_delimiter_keeps_all(buf: Seq<u8>, delim: Seq<u8>)
    requires
        delim.len() == 0 || forall|j: int| !#[trigger] matches_at(buf, delim, j),
    ensures
        split_records(buf, delim) == Seq::<Seq<u8>>::empty(),
        split_rest(buf, delim) == buf,
{
    lemma_first_match(buf, delim);
    if first_match(buf, delim) is Some {
        assert(matches_at(buf, delim, first_match(buf, delim)->0));
    }
}

/// The bytes of all chunks, in order.
pub open spec fn concat_chunks(chunks: Seq<Seq<u8>>) -> Seq<u8>
    decreases chunks.len(),
{
    if chunks.len() == 0 {
        seq![]
    } else {
        concat_chunks(chunks.drop_last()) + chunks.last()
    }
}

/// What stays buffered after each chunk of `chunks` was appended and drained in turn.
pub open spec fn fed_rest(chunks: Seq<Seq<u8>>, delim: Seq<u8>) -> Seq<u8>
    decreases chunks.len(),
{
    if chunks.len() == 0 {
        seq![]
    } else {
        split_rest(fed_rest(chunks.drop_last(), delim) + chunks.last(), delim)
    }
}

/// The records emitted, in order, when each chunk of `chunks` is appended and drained in turn.
pub open spec fn fed_records(chunks: Seq<Seq<u8>>, delim: Seq<u8>) -> Seq<Seq<u8>>
    decreases chunks.len(),
{
    if chunks.len() == 0 {
        seq![]
    } else {
        fed_records(chunks.drop_last(), delim) + split_records(
            fed_rest(chunks.drop_last(), delim) + chunks.last(),
            delim,
        )
    }
}

/// Chunk-boundary independence: feeding a stream chunk by chunk, with a drain after each chunk,
/// emits exactly the records, and keeps exactly the remainder, that one drain of the whole
/// stream would.
pub proof fn lemma_chunk_boundary_independence(chunks: Seq<Seq<u8>>, delim: Seq<u8>)
    ensures
        fed_records(chunks, delim) == split_records(concat_chunks(chunks), delim),
        fed_rest(chunks, delim) == split_rest(concat_chunks(chunks), delim),
    decreases chunks.len(),
{
    if chunks.len() == 0 {
        assert(concat_chunks(chunks) =~= Seq::<u8>::empty());
        lemma_no_delimiter_keeps_all(Seq::<u8>::empty(), delim);
    } else {
        let init = chunks.drop_last();
        lemma_chunk_boundary_independence(init, delim);
        lemma_split_append(concat_chunks(init), chunks.last(), delim);
    }
}

/// Returns the offset of the first occurrence of `delimiter` in `bytes`; never matches an empty
/// delimiter.
pub fn first_delim_index(bytes: &[u8], delimiter: &[u8]) -> (r: Option<usize>)
    ensures
        r matches Some(i) ==> first_match(bytes@, delimiter@) == Some(i as int),
        r is None ==> first_match(bytes@, delimiter@) is None,
{
    if delimiter.len() == 0 {
        return None;
    }
    if bytes.len() < delimiter.len() {
        return None;
    }
    let last: usize = bytes.len() - delimiter.len();
    let mut i: usize = 0;
    while i <= last
        invariant
            0 < delimiter@.len() <= bytes@.len(),
            last == bytes@.len() - delimiter@.len(),
            bytes@.len() == bytes.len(),
            delimiter@.len() == delimiter.len(),
            i <= last + 1,
            first_match(bytes@, delimiter@) == first_match_from(bytes@, delimiter@, i as int),
        decreases last + 1 - i,
    {
        if starts_with_at(bytes, delimiter, i) {
            return Some(i);
        }
        i = i + 1;
    }
    None
}

/// Whether `delimiter` occurs in `bytes` at offset `at`.
fn starts_with_at(bytes: &[u8], delimiter: &[u8], at: usize) -> (r: bool)
    requires
        at + delimiter@.len() <= bytes@.len(),
    ensures
        r == matches_at(bytes@, delimiter@, at as int),
{
    let mut k: usize = 0;
    while k < delimiter.len()
        invariant
            at + delimiter@.len() <= bytes@.len(),
            bytes@.len() == bytes.len(),
            delimiter@.len() == delimiter.len(),
            k <= delimiter@.len(),
            forall|j: int| 0 <= j < k ==> bytes@[at + j] == delimiter@[j],
        decreases delimiter@.len() - k,
    {
        if bytes[at + k] != delimiter[k] {
            assert(bytes@.subrange(at as int, at + delimiter@.len())[k as int] != delimiter@[k as int]);
            return false;
        }
        k = k + 1;
    }
    assert(bytes@.subrange(at as int, at + delimiter@.len()) =~= delimiter@);
    true
}

/// The texts of `records`, each decoded with the encoding labelled `label`.
pub open spec fn decoded_records(records: Seq<Seq<u8>>, label: Seq<u8>) -> Seq<Seq<char>> {
    records.map_values(|r: Seq<u8>| decoded_as(label, r))
}

/// Removes from `buffer` the record that ends with the delimiter at `index`, and returns the
/// record without its delimiter.
fn dequeue_next_record(buffer: &mut BytesMut, index: usize, delimiter: &[u8]) -> (r: BytesMut)
    requires
        index + delimiter@.len() <= buffer_bytes(*old(buffer)).len(),
    ensures
        buffer_bytes(r) == buffer_bytes(*old(buffer)).subrange(0, index as int),
        buffer_bytes(*final(buffer)) == buffer_bytes(*old(buffer)).subrange(
            index + delimiter@.len(),
            buffer_bytes(*old(buffer)).len() as int,
        ),
{
    let held = buffer_as_slice(buffer).len();
    let mut next_record = buffer_split_to(buffer, index + delimiter.len());
    let record_len = buffer_as_slice(&next_record).len();
    buffer_truncate(&mut next_record, record_len - delimiter.len());
    proof {
        let whole = buffer_bytes(*old(buffer));
        assert(whole.subrange(0, index + delimiter@.len()).subrange(0, index as int) =~= whole.subrange(
            0,
            index as int,
        ));
    }
    next_record
}

/// Decodes a record body with the response's encoding.
fn decoded_record_body(record_body: BytesMut, charset: &Charset) -> (r: String)
    requires
        charset.wf(),
    ensures
        r@ == decoded_as(charset.label(), buffer_bytes(record_body)),
{
    charset.decode(buffer_as_slice(&record_body))
}

/// Cuts every complete record from the start of `buf` and returns their decoded texts, in
/// order; the unmatched remainder stays in `buf`.
pub(crate) fn dequeue_and_forward_records(
    buf: &mut BytesMut,
    delimiter: &[u8],
    charset: &Charset,
) -> (r: Vec<String>)
    requires
        charset.wf(),
    ensures
        string_texts(r@) == decoded_records(
            split_records(buffer_bytes(*old(buf)), delimiter@),
            charset.label(),
        ),
        buffer_bytes(*final(buf)) == split_rest(buffer_bytes(*old(buf)), delimiter@),
{
    let ghost start = buffer_bytes(*buf);
    let ghost mut taken: Seq<Seq<u8>> = seq![];
    let mut out: Vec<String> = Vec::new();
    loop
        invariant
            charset.wf(),
            split_records(start, delimiter@) == taken + split_records(buffer_bytes(*buf), delimiter@),
            split_rest(start, delimiter@) == split_rest(buffer_bytes(*buf), delimiter@),
            string_texts(out@) == decoded_records(taken, charset.label()),
        ensures
            split_records(start, delimiter@) == taken,
            split_rest(start, delimiter@) == buffer_bytes(*buf),
            string_texts(out@) == decoded_records(taken, charset.label()),
        decreases buffer_bytes(*buf).len(),
    {
        let found = first_delim_index(buffer_as_slice(buf), delimiter);
        let ghost cur = buffer_bytes(*buf);
        proof {
            lemma_first_match(cur, delimiter@);
        }
        match found {
            Some(index) => {
                let next_record = dequeue_next_record(buf, index, delimiter);
                let ghost raw = buffer_bytes(next_record);
                let decoded = decoded_record_body(next_record, charset);
                let ghost before = out@;
                out.push(decoded);
                proof {
                    assert(split_records(cur, delimiter@) == seq![raw] + split_records(
                        buffer_bytes(*buf),
                        delimiter@,
                    ));
                    assert(taken + split_records(cur, delimiter@) =~= taken.push(raw)
                        + split_records(buffer_bytes(*buf), delimiter@));
                    assert(string_texts(out@) =~= string_texts(before).push(decoded@));
                    assert(decoded_records(taken.push(raw), charset.label()) =~= decoded_records(
                        taken,
                        charset.label(),
                    ).push(decoded_as(charset.label(), raw)));
                    taken = taken.push(raw);
                    assert(string_texts(out@) =~= decoded_records(taken, charset.label()));
                }
            },
            None => {
                proof {
                    assert(taken + split_records(cur, delimiter@) =~= taken);
                }
                break;
            },
        }
    }
    out
}

/// The number of records that draining `buf` cuts: its leftmost non-overlapping
/// occurrences of `delim`, counted from the start.
pub open spec fn occurrence_count(buf: Seq<u8>, delim: Seq<u8>) -> nat
    decreases buf.len(),
{
    match first_match(buf, delim) {
        Some(i) => if 0 <= i && 0 < delim.len() && i + delim.len() <= buf.len() {
            1 + occurrence_count(buf.subrange(i + delim.len(), buf.len() as int), delim)
        } else {
            0
        },
        None => 0,
    }
}

/// Draining cuts one record per leftmost non-overlapping occurrence of the delimiter.
pub proof fn lemma_record_count(buf: Seq<u8>, delim: Seq<u8>)
    ensures
        split_records(buf, delim).len() == occurrence_count(buf, delim),
    decreases buf.len(),
{
    if let Some(i) = first_match(buf, delim) {
        if 0 <= i && 0 < delim.len() && i + delim.len() <= buf.len() {
            lemma_record_count(buf.subrange(i + delim.len(), buf.len() as int), delim);
        }
    }
}

/// What stays buffered is never longer than what was drained.
proof fn lemma_split_rest_shorter(buf: Seq<u8>, delim: Seq<u8>)
    ensures
        split_rest(buf, delim).len() <= buf.len(),
    decreases buf.len(),
{
    if let Some(i) = first_match(buf, delim) {
        if 0 <= i && 0 < delim.len() && i + delim.len() <= buf.len() {
            lemma_split_rest_shorter(buf.subrange(i + delim.len(), buf.len() as int), delim);
        }
    }
}

/// The bytes of a prefix of the chunks are no more than the bytes of all of them.
proof fn lemma_concat_prefix_len(chunks: Seq<Seq<u8>>, n: int)
    requires
        0 <= n <= chunks.len(),
    ensures
        concat_chunks(chunks.subrange(0, n)).len() <= concat_chunks(chunks).len(),
    decreases chunks.len(),
{
    if n < chunks.len() {
        lemma_concat_prefix_len(chunks.drop_last(), n);
        assert(chunks.drop_last().subrange(0, n) =~= chunks.subrange(0, n));
    } else {
        assert(chunks.subrange(0, n) =~= chunks);
    }
}

/// The byte sequences of `chunks`.
pub open spec fn chunk_views(chunks: Seq<Vec<u8>>) -> Seq<Seq<u8>> {
    chunks.map_values(|c: Vec<u8>| c@)
}

/// Reads a finite stream: appends each chunk in turn, drains after each, and returns every
/// record in stream order. The result is the records of the whole stream read as one chunk,
/// one per leftmost non-overlapping occurrence of `delimiter`.
pub fn split_stream(chunks: &Vec<Vec<u8>>, delimiter: Vec<u8>, charset: Charset) -> (r: Vec<
    String,
>)
    requires
        charset.wf(),
        concat_chunks(chunk_views(chunks@)).len() <= isize::MAX,
    ensures
        string_texts(r@) == decoded_records(
            split_records(concat_chunks(chunk_views(chunks@)), delimiter@),
            charset.label(),
        ),
        r@.len() == occurrence_count(concat_chunks(chunk_views(chunks@)), delimiter@),
{
    let ghost views = chunk_views(chunks@);
    let ghost d = delimiter@;
    let ghost label = charset.label();
    let mut splitter = RecordSplitter::new(delimiter, charset);
    let mut out: Vec<String> = Vec::new();
    let mut i: usize = 0;
    assert(views.subrange(0, 0) =~= Seq::<Seq<u8>>::empty());
    while i < chunks.len()
        invariant
            views == chunk_views(chunks@),
            i <= chunks@.len(),
            concat_chunks(views).len() <= isize::MAX,
            splitter.wf(),
            splitter.delimiter() == d,
            splitter.label() == label,
            splitter.buffered() == fed_rest(views.subrange(0, i as int), d),
            string_texts(out@) == decoded_records(fed_records(views.subrange(0, i as int), d), label),
        decreases chunks@.len() - i,
    {
        let ghost prev = views.subrange(0, i as int);
        let ghost next = views.subrange(0, i + 1);
        proof {
            assert(next.drop_last() =~= prev);
            assert(next.last() == chunks@[i as int]@);
            lemma_chunk_boundary_independence(prev, d);
            lemma_split_rest_shorter(concat_chunks(prev), d);
            lemma_concat_prefix_len(views, i + 1);
        }
        let mut recs = splitter.push_chunk(chunks[i].as_slice());
        let ghost before = out@;
        let ghost got = recs@;
        out.append(&mut recs);
        proof {
            assert(out@ == before + got);
            assert(string_texts(out@) =~= string_texts(before) + string_texts(got));
            let fresh = split_records(fed_rest(prev, d) + chunks@[i as int]@, d);
            assert(fed_records(next, d) == fed_records(prev, d) + fresh);
            assert(decoded_records(fed_records(prev, d) + fresh, label) =~= decoded_records(
                fed_records(prev, d),
                label,
            ) + decoded_records(fresh, label));
        }
        i = i + 1;
    }
    proof {
        assert(views.subrange(0, chunks@.len() as int) =~= views);
        lemma_chunk_boundary_independence(views, d);
        lemma_record_count(concat_chunks(views), d);
        assert(string_texts(out@).len() == out@.len());
    }
    out
}

/// The stateful record splitter of one connection: accumulates stream bytes and cuts
/// delimiter-terminated records from them, decoding each with the response's encoding.
pub struct RecordSplitter {
    buffer: BytesMut,
    delimiter: Vec<u8>,
    charset: Charset,
}

impl RecordSplitter {
    /// The bytes received and not yet cut into records.
    pub closed spec fn buffered(&self) -> Seq<u8> {
        buffer_bytes(self.buffer)
    }

    /// The delimiter that ends each record.
    pub closed spec fn delimiter(&self) -> Seq<u8> {
        self.delimiter@
    }

    /// The label of the encoding that records are decoded with.
    pub closed spec fn label(&self) -> Seq<u8> {
        self.charset.label()
    }

    pub closed spec fn wf(&self) -> bool {
        self.charset.wf()
    }

    /// An empty splitter for records ending in `delimiter`, decoded with `charset`.
    pub fn new(delimiter: Vec<u8>, charset: Charset) -> (r: RecordSplitter)
        requires
            charset.wf(),
        ensures
            r.wf(),
            r.buffered() == Seq::<u8>::empty(),
            r.delimiter() == delimiter@,
            r.label() == charset.label(),
    {
        RecordSplitter { buffer: buffer_new(), delimiter, charset }
    }

    /// How many bytes are buffered.
    pub fn buffered_len(&self) -> (r: usize)
        ensures
            r == self.buffered().len(),
    {
        buffer_as_slice(&self.buffer).len()
    }

    /// Appends a chunk of stream bytes to the buffer.
    pub fn append(&mut self, chunk: &[u8])
        requires
            old(self).wf(),
            old(self).buffered().len() + chunk@.len() <= isize::MAX,
        ensures
            final(self).wf(),
            final(self).buffered() == old(self).buffered() + chunk@,
            final(self).delimiter() == old(self).delimiter(),
            final(self).label() == old(self).label(),
    {
        buffer_extend(&mut self.buffer, chunk);
    }

    /// Cuts every complete record from the buffer and returns their decoded texts in stream
    /// order; the bytes after the last delimiter stay buffered.
    pub fn drain_records(&mut self) -> (r: Vec<String>)
        requires
            old(self).wf(),
        ensures
            final(self).wf(),
            string_texts(r@) == decoded_records(
                split_records(old(self).buffered(), old(self).delimiter()),
                old(self).label(),
            ),
            final(self).buffered() == split_rest(old(self).buffered(), old(self).delimiter()),
            final(self).delimiter() == old(self).delimiter(),
            final(self).label() == old(self).label(),
    {
        dequeue_and_forward_records(&mut self.buffer, self.delimiter.as_slice(), &self.charset)
    }

    /// Appends `chunk` and drains the records it completes.
    pub fn push_chunk(&mut self, chunk: &[u8]) -> (r: Vec<String>)
        requires
            old(self).wf(),
            old(self).buffered().len() + chunk@.len() <= isize::MAX,
        ensures
            final(self).wf(),
            string_texts(r@) == decoded_records(
                split_records(old(self).buffered() + chunk@, old(self).delimiter()),
                old(self).label(),
            ),
            final(self).buffered() == split_rest(
                old(self).buffered() + chunk@,
                old(self).delimiter(),
            ),
            final(self).delimiter() == old(self).delimiter(),
            final(self).label() == old(self).label(),
    {
        self.append(chunk);
        self.drain_records()
    }
}

/// The `Content-Type` value of a response, the first header of that name.
pub open spec fn content_type_of(m: HttpResponseMetadata) -> Option<Seq<char>> {
    match m.headers {
        Some(hs) => if exists|i: int|
            0 <= i < hs@.len() && (#[trigger] hs@[i]).name@ == "content-type"@ {
            Some(
                hs@[choose|i: int|
                    0 <= i < hs@.len() && (#[trigger] hs@[i]).name@ == "content-type"@ && forall|
                        j: int,
                    | 0 <= j < i ==> (#[trigger] hs@[j]).name@ != "content-type"@].value@,
            )
        } else {
            None
        },
        None => None,
    }
}

/// Resolves, once per response, the encoding its records are decoded with: the `charset`
/// parameter of its `Content-Type` when it names a known encoding, else UTF-8.
pub fn transfer_encoding(metadata: &HttpResponseMetadata) -> (r: Charset)
    ensures
        r.wf(),
        r.label() == resolved_label(content_type_of(*metadata)),
{
    let found = metadata.first_header_value("content-type");
    proof {
        if metadata.headers is Some {
            let hs = metadata.headers->0;
            if found is None {
                assert(!exists|i: int|
                    0 <= i < hs@.len() && (#[trigger] hs@[i]).name@ == "content-type"@);
            } else {
                let i = choose|i: int|
                    0 <= i < hs@.len() && (#[trigger] hs@[i]).name@ == "content-type"@ && hs@[i].value
                        == *found->0 && forall|j: int|
                        0 <= j < i ==> (#[trigger] hs@[j]).name@ != "content-type"@;
                let k = choose|i: int|
                    0 <= i < hs@.len() && (#[trigger] hs@[i]).name@ == "content-type"@ && forall|
                        j: int,
                    | 0 <= j < i ==> (#[trigger] hs@[j]).name@ != "content-type"@;
                if k < i {
                    assert(hs@[k].name@ != "content-type"@);
                } else if i < k {
                    assert(hs@[i].name@ != "content-type"@);
                }
            }
        }
    }
    match found {
        Some(v) => charset_for_content_type(Some(v.as_str())),
        None => charset_for_content_type(None),
    }
}

} // verus!
