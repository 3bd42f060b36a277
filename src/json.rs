//! The JSON rendering of a response record: headers grouped by name, keys in order.
use crate::metadata::{header_views, HttpHeader, HttpResponseMetadata};
use crate::record::HttpResponseRecord;
use crate::render::{decimal, join, join_strings, push_decimal, string_texts};
use vstd::prelude::*;

verus! {

/// Lexicographic order on texts, character by character.
pub open spec fn text_less(a: Seq<char>, b: Seq<char>) -> bool
    decreases a.len(),
{
    if a.len() == 0 {
        b.len() > 0
    } else if b.len() == 0 {
        false
    } else if a[0] != b[0] {
        (a[0] as u32) < (b[0] as u32)
    } else {
        text_less(a.drop_first(), b.drop_first())
    }
}

/// `text_less` is a strict total order.
pub proof fn lemma_text_less_order(a: Seq<char>, b: Seq<char>, c: Seq<char>)
    ensures
        !text_less(a, a),
        text_less(a, b) ==> !text_less(b, a),
        a != b ==> text_less(a, b) || text_less(b, a),
        text_less(a, b) && text_less(b, c) ==> text_less(a, c),
    decreases a.len(),
{
    if a.len() > 0 && b.len() > 0 && a[0] != b[0] {
        vstd::utf8::char_u32_cast(a[0], a[0] as u32);
        vstd::utf8::char_u32_cast(b[0], b[0] as u32);
    }
    if a.len() > 0 && b.len() > 0 && c.len() > 0 {
        lemma_text_less_order(a.drop_first(), b.drop_first(), c.drop_first());
        if a != b && a[0] == b[0] {
            assert(a =~= seq![a[0]] + a.drop_first());
            assert(b =~= seq![b[0]] + b.drop_first());
        }
    } else if a.len() > 0 && b.len() > 0 {
        lemma_text_less_order(a.drop_first(), b.drop_first(), b.drop_first());
        if a != b && a[0] == b[0] {
            assert(a =~= seq![a[0]] + a.drop_first());
            assert(b =~= seq![b[0]] + b.drop_first());
        }
    } else if a.len() > 0 {
        lemma_text_less_order(a.drop_first(), a.drop_first(), a.drop_first());
    } else {
        assert(a.len() == 0);
        if b.len() == 0 {
            assert(a =~= b);
        }
    }
}

/// Whether `a` orders before `b`.
pub fn str_less(a: &str, b: &str) -> (r: bool)
    ensures
        r == text_less(a@, b@),
{
    let na = a.unicode_len();
    let nb = b.unicode_len();
    let mut i: usize = 0;
    assert(a@.skip(0) =~= a@ && b@.skip(0) =~= b@);
    while i < na && i < nb && a.get_char(i) == b.get_char(i)
        invariant
            na == a@.len(),
            nb == b@.len(),
            i <= na,
            i <= nb,
            text_less(a@, b@) == text_less(a@.skip(i as int), b@.skip(i as int)),
        decreases na - i,
    {
        assert(a@.skip(i as int).drop_first() =~= a@.skip(i + 1));
        assert(b@.skip(i as int).drop_first() =~= b@.skip(i + 1));
        i = i + 1;
    }
    if i == na {
        i < nb
    } else if i == nb {
        false
    } else {
        (a.get_char(i) as u32) < (b.get_char(i) as u32)
    }
}

/// The value of one header name in the JSON rendering: one text, or the list of texts once
/// the name repeats.
#[derive(Debug, PartialEq, Eq)]
pub enum JsonHeadersValue {
    One(String),
    Many(Vec<String>),
}

impl JsonHeadersValue {
    /// The texts held, in order.
    pub open spec fn values(&self) -> Seq<Seq<char>> {
        match self {
            JsonHeadersValue::One(s) => seq![s@],
            JsonHeadersValue::Many(v) => string_texts(v@),
        }
    }

    /// Records one more value; a single value becomes a list, and a list never reverts.
    pub fn push(&mut self, value: String)
        ensures
            final(self).values() == old(self).values().push(value@),
            *final(self) is Many,
    {
        match self {
            JsonHeadersValue::One(prev) => {
                let mut list: Vec<String> = Vec::new();
                list.push(prev.clone());
                list.push(value);
                assert(string_texts(list@) =~= old(self).values().push(list@[1]@));
                *self = JsonHeadersValue::Many(list);
            },
            JsonHeadersValue::Many(list) => {
                let ghost before = list@;
                list.push(value);
                assert(string_texts(list@) =~= string_texts(before).push(value@));
            },
        }
    }
}

/// The values of the headers named `name`, in received order.
pub open spec fn values_named(headers: Seq<(Seq<char>, Seq<char>)>, name: Seq<char>) -> Seq<
    Seq<char>,
>
    decreases headers.len(),
{
    if headers.len() == 0 {
        seq![]
    } else if headers.last().0 == name {
        values_named(headers.drop_last(), name).push(headers.last().1)
    } else {
        values_named(headers.drop_last(), name)
    }
}

proof fn lemma_values_named_absent(headers: Seq<(Seq<char>, Seq<char>)>, name: Seq<char>)
    requires
        forall|j: int| 0 <= j < headers.len() ==> (#[trigger] headers[j]).0 != name,
    ensures
        values_named(headers, name) == Seq::<Seq<char>>::empty(),
    decreases headers.len(),
{
    if headers.len() > 0 {
        lemma_values_named_absent(headers.drop_last(), name);
    }
}

/// Whether the keys of `entries` strictly increase.
pub open spec fn keys_increasing(entries: Seq<(String, JsonHeadersValue)>) -> bool {
    forall|i: int, j: int|
        0 <= i < j < entries.len() ==> text_less(
            (#[trigger] entries[i]).0@,
            (#[trigger] entries[j]).0@,
        )
}

/// `entries` groups `headers` by name: keys strictly increase, every header name has an
/// entry, and each entry holds the values of its name in received order, as one text exactly
/// when the name occurs once.
pub open spec fn groups_headers(
    entries: Seq<(String, JsonHeadersValue)>,
    headers: Seq<(Seq<char>, Seq<char>)>,
) -> bool {
    &&& keys_increasing(entries)
    &&& forall|i: int|
        0 <= i < entries.len() ==> {
            &&& (#[trigger] entries[i]).1.values() == values_named(headers, entries[i].0@)
            &&& entries[i].1.values().len() >= 1
            &&& (entries[i].1 is One <==> entries[i].1.values().len() == 1)
        }
    &&& forall|j: int| 0 <= j < headers.len() ==> has_key(entries, (#[trigger] headers[j]).0)
}

/// Whether some entry has key `name`.
pub open spec fn has_key(entries: Seq<(String, JsonHeadersValue)>, name: Seq<char>) -> bool {
    exists|i: int| 0 <= i < entries.len() && (#[trigger] entries[i]).0@ == name
}

/// Whether some group has key `name`.
pub open spec fn has_group(g: HeaderGroups, name: Seq<char>) -> bool {
    exists|i: int| 0 <= i < g.len() && (#[trigger] g[i]).0 == name
}

/// Groups headers by name for the JSON rendering: one entry per name, names in order, the
/// values of a repeated name in received order.
pub fn headers_to_json(headers: Vec<HttpHeader>) -> (r: Vec<(String, JsonHeadersValue)>)
    ensures
        groups_headers(r@, header_views(headers@)),
{
    let mut result: Vec<(String, JsonHeadersValue)> = Vec::new();
    let mut n: usize = 0;
    while n < headers.len()
        invariant
            n <= headers@.len(),
            groups_headers(result@, header_views(headers@).subrange(0, n as int)),
        decreases headers@.len() - n,
    {
        let ghost prev = header_views(headers@).subrange(0, n as int);
        let ghost next = header_views(headers@).subrange(0, n + 1);
        let ghost old_result = result@;
        let name = headers[n].name.clone();
        let value = headers[n].value.clone();
        proof {
            assert(next.drop_last() =~= prev);
            assert(next.last() == (name@, value@));
        }
        // Find the entry of `name`, or the position that keeps the keys in order.
        let mut i: usize = 0;
        let mut found = false;
        while i < result.len()
            invariant
                result@ == old_result,
                keys_increasing(result@),
                i <= result@.len(),
                forall|j: int| 0 <= j < i ==> text_less((#[trigger] result@[j]).0@, name@),
                found ==> i < result@.len() && result@[i as int].0@ == name@,
                !found ==> forall|j: int| 0 <= j < i ==> (#[trigger] result@[j]).0@ != name@,
            ensures
                result@ == old_result,
                i <= result@.len(),
                forall|j: int| 0 <= j < i ==> text_less((#[trigger] result@[j]).0@, name@),
                found ==> i < result@.len() && result@[i as int].0@ == name@,
                !found && i < result@.len() ==> text_less(name@, result@[i as int].0@),
            decreases result@.len() - i,
        {
            if str_less(result[i].0.as_str(), name.as_str()) {
                proof {
                    lemma_text_less_order(result@[i as int].0@, name@, name@);
                }
                i = i + 1;
            } else {
                if !str_less(name.as_str(), result[i].0.as_str()) {
                    proof {
                        lemma_text_less_order(name@, result@[i as int].0@, name@);
                    }
                    found = true;
                }
                proof {
                    lemma_text_less_order(name@, result@[i as int].0@, name@);
                }
                break;
            }
        }
        proof {
            assert forall|j: int| 0 <= j < result@.len() && (#[trigger] result@[j]).0@ == name@
                implies found && j == i by {
                lemma_text_less_order(name@, name@, name@);
                if j < i {
                } else if !found {
                    assert(i < result@.len());
                    if j > i {
                        lemma_text_less_order(name@, result@[i as int].0@, result@[j].0@);
                    }
                } else if j > i {
                    lemma_text_less_order(result@[i as int].0@, result@[j].0@, name@);
                }
            }
        }
        if found {
            let (key, mut entry) = result.remove(i);
            entry.push(value);
            result.insert(i, (key, entry));
            proof {
                assert forall|k: int| 0 <= k < result@.len() implies {
                    &&& (#[trigger] result@[k]).1.values() == values_named(next, result@[k].0@)
                    &&& result@[k].1.values().len() >= 1
                    &&& (result@[k].1 is One <==> result@[k].1.values().len() == 1)
                } by {
                    assert(result@[k].0 == old_result[k].0);
                    if k != i {
                        assert(result@[k] == old_result[k]);
                    }
                }
                assert forall|j: int| 0 <= j < next.len() implies has_key(
                    result@,
                    (#[trigger] next[j]).0,
                ) by {
                    if j < prev.len() {
                        assert(next[j] == prev[j]);
                        let k = choose|k: int|
                            0 <= k < old_result.len() && (#[trigger] old_result[k]).0@ == prev[j].0;
                        assert(result@[k].0 == old_result[k].0);
                    } else {
                        assert(result@[i as int].0@ == next[j].0);
                    }
                }
                assert forall|a: int, b: int| 0 <= a < b < result@.len() implies text_less(
                    (#[trigger] result@[a]).0@,
                    (#[trigger] result@[b]).0@,
                ) by {
                    assert(result@[a].0 == old_result[a].0);
                    assert(result@[b].0 == old_result[b].0);
                }
            }
        } else {
            proof {
                assert forall|j: int| 0 <= j < prev.len() implies (#[trigger] prev[j]).0 != name@ by {
                    if prev[j].0 == name@ {
                        let k = choose|k: int|
                            0 <= k < old_result.len() && (#[trigger] old_result[k]).0@ == prev[j].0;
                    }
                }
                lemma_values_named_absent(prev, name@);
            }
            let ghost key = name@;
            result.insert(i, (name, JsonHeadersValue::One(value)));
            proof {
                assert forall|k: int| 0 <= k < result@.len() implies {
                    &&& (#[trigger] result@[k]).1.values() == values_named(next, result@[k].0@)
                    &&& result@[k].1.values().len() >= 1
                    &&& (result@[k].1 is One <==> result@[k].1.values().len() == 1)
                } by {
                    if k < i {
                        assert(result@[k] == old_result[k]);
                    } else if k > i {
                        assert(result@[k] == old_result[k - 1]);
                    }
                }
                assert forall|j: int| 0 <= j < next.len() implies has_key(
                    result@,
                    (#[trigger] next[j]).0,
                ) by {
                    if j < prev.len() {
                        assert(next[j] == prev[j]);
                        let k = choose|k: int|
                            0 <= k < old_result.len() && (#[trigger] old_result[k]).0@ == prev[j].0;
                        if k < i {
                            assert(result@[k] == old_result[k]);
                        } else {
                            assert(result@[k + 1] == old_result[k]);
                        }
                    } else {
                        assert(result@[i as int].0@ == next[j].0);
                    }
                }
                assert forall|a: int, b: int| 0 <= a < b < result@.len() implies text_less(
                    (#[trigger] result@[a]).0@,
                    (#[trigger] result@[b]).0@,
                ) by {
                    if b < i {
                        assert(result@[a] == old_result[a]);
                        assert(result@[b] == old_result[b]);
                    } else if b == i {
                        assert(result@[a] == old_result[a]);
                    } else if a == i {
                        assert(result@[b] == old_result[b - 1]);
                        assert(text_less(key, old_result[i as int].0@));
                        lemma_text_less_order(key, old_result[i as int].0@, old_result[b - 1].0@);
                        lemma_text_less_order(key, old_result[i as int].0@, key);
                    } else if a < i {
                        assert(result@[a] == old_result[a]);
                        assert(result@[b] == old_result[b - 1]);
                        lemma_text_less_order(old_result[a].0@, key, old_result[i as int].0@);
                        lemma_text_less_order(key, old_result[i as int].0@, key);
                        lemma_text_less_order(old_result[a].0@, old_result[i as int].0@, old_result[b - 1].0@);
                    } else {
                        assert(result@[a] == old_result[a - 1]);
                        assert(result@[b] == old_result[b - 1]);
                    }
                }
            }
        }
        n = n + 1;
    }
    assert(header_views(headers@).subrange(0, headers@.len() as int) =~= header_views(headers@));
    result
}

/// The grouping of headers by name as texts: each key with its values.
pub type HeaderGroups = Seq<(Seq<char>, Seq<Seq<char>>)>;

/// The texts of `entries`: each key with the values it holds.
pub open spec fn entries_view(entries: Seq<(String, JsonHeadersValue)>) -> HeaderGroups {
    entries.map_values(|e: (String, JsonHeadersValue)| (e.0@, e.1.values()))
}

/// `g` groups `headers` by name: keys strictly increase, every header name has a group, and
/// each group holds the values of its name in received order.
pub open spec fn is_grouping(g: HeaderGroups, headers: Seq<(Seq<char>, Seq<char>)>) -> bool {
    &&& forall|i: int, j: int|
        0 <= i < j < g.len() ==> text_less((#[trigger] g[i]).0, (#[trigger] g[j]).0)
    &&& forall|i: int|
        0 <= i < g.len() ==> (#[trigger] g[i]).1 == values_named(headers, g[i].0) && g[i].1.len()
            >= 1
    &&& forall|j: int| 0 <= j < headers.len() ==> has_group(g, (#[trigger] headers[j]).0)
}

/// A grouping into entries is a grouping of their texts.
pub proof fn lemma_groups_are_grouping(
    entries: Seq<(String, JsonHeadersValue)>,
    headers: Seq<(Seq<char>, Seq<char>)>,
)
    requires
        groups_headers(entries, headers),
    ensures
        is_grouping(entries_view(entries), headers),
{
    let g = entries_view(entries);
    assert forall|i: int, j: int| 0 <= i < j < g.len() implies text_less(
        (#[trigger] g[i]).0,
        (#[trigger] g[j]).0,
    ) by {
        assert(text_less(entries[i].0@, entries[j].0@));
    }
    assert forall|j: int| 0 <= j < headers.len() implies has_group(g, (#[trigger] headers[j]).0) by {
        let i = choose|i: int| 0 <= i < entries.len() && (#[trigger] entries[i]).0@ == headers[j].0;
        assert(g[i].0 == headers[j].0);
    }
    assert forall|i: int| 0 <= i < g.len() implies (#[trigger] g[i]).1 == values_named(
        headers,
        g[i].0,
    ) && g[i].1.len() >= 1 by {
        assert(entries[i].1.values() == values_named(headers, entries[i].0@));
    }
    assert(is_grouping(g, headers));
}

proof fn lemma_values_named_nonempty(headers: Seq<(Seq<char>, Seq<char>)>, name: Seq<char>)
    requires
        values_named(headers, name).len() > 0,
    ensures
        exists|j: int| 0 <= j < headers.len() && (#[trigger] headers[j]).0 == name,
    decreases headers.len(),
{
    if headers.last().0 == name {
        assert(headers[headers.len() - 1].0 == name);
    } else {
        lemma_values_named_nonempty(headers.drop_last(), name);
        let j = choose|j: int|
            0 <= j < headers.drop_last().len() && (#[trigger] headers.drop_last()[j]).0 == name;
        assert(headers[j] == headers.drop_last()[j]);
    }
}

/// Every key of a grouping is the name of some header.
proof fn lemma_group_key_is_name(g: HeaderGroups, headers: Seq<(Seq<char>, Seq<char>)>, i: int)
    requires
        is_grouping(g, headers),
        0 <= i < g.len(),
    ensures
        exists|j: int| 0 <= j < headers.len() && (#[trigger] headers[j]).0 == g[i].0,
{
    assert(g[i].1 == values_named(headers, g[i].0));
    lemma_values_named_nonempty(headers, g[i].0);
}

/// Within the common prefix, two groupings of the same headers have the same keys.
proof fn lemma_grouping_keys_agree(
    g1: HeaderGroups,
    g2: HeaderGroups,
    headers: Seq<(Seq<char>, Seq<char>)>,
    n: int,
)
    requires
        is_grouping(g1, headers),
        is_grouping(g2, headers),
        0 <= n <= g1.len(),
        n <= g2.len(),
    ensures
        forall|i: int| 0 <= i < n ==> (#[trigger] g1[i]).0 == g2[i].0,
    decreases n,
{
    if n > 0 {
        let i = n - 1;
        lemma_grouping_keys_agree(g1, g2, headers, i);
        let a = g1[i].0;
        let b = g2[i].0;
        if a != b {
            lemma_text_less_order(a, b, a);
            if text_less(a, b) {
                lemma_group_key_is_name(g1, headers, i);
                let j = choose|j: int| 0 <= j < headers.len() && (#[trigger] headers[j]).0 == a;
                assert(has_group(g2, headers[j].0));
                let m = choose|m: int| 0 <= m < g2.len() && (#[trigger] g2[m]).0 == a;
                if m < i {
                    assert(g1[m].0 == g2[m].0);
                    assert(text_less(g1[m].0, g1[i].0));
                    lemma_text_less_order(a, a, a);
                } else if m > i {
                    assert(text_less(g2[i].0, g2[m].0));
                }
            } else {
                lemma_group_key_is_name(g2, headers, i);
                let j = choose|j: int| 0 <= j < headers.len() && (#[trigger] headers[j]).0 == b;
                assert(has_group(g1, headers[j].0));
                let m = choose|m: int| 0 <= m < g1.len() && (#[trigger] g1[m]).0 == b;
                if m < i {
                    assert(g1[m].0 == g2[m].0);
                    assert(text_less(g2[m].0, g2[i].0));
                    lemma_text_less_order(b, b, b);
                } else if m > i {
                    assert(text_less(g1[i].0, g1[m].0));
                }
            }
        }
    }
}

/// The grouping of headers by name is unique, so the JSON rendering of a record is too.
pub proof fn lemma_grouping_unique(
    g1: HeaderGroups,
    g2: HeaderGroups,
    headers: Seq<(Seq<char>, Seq<char>)>,
)
    requires
        is_grouping(g1, headers),
        is_grouping(g2, headers),
    ensures
        g1 == g2,
{
    if g1.len() < g2.len() {
        let n = g1.len() as int;
        lemma_grouping_keys_agree(g1, g2, headers, n);
        lemma_group_key_is_name(g2, headers, n);
        let j = choose|j: int| 0 <= j < headers.len() && (#[trigger] headers[j]).0 == g2[n].0;
        assert(has_group(g1, headers[j].0));
        let m = choose|m: int| 0 <= m < g1.len() && (#[trigger] g1[m]).0 == g2[n].0;
        assert(g1[m].0 == g2[m].0);
        assert(text_less(g2[m].0, g2[n].0));
        lemma_text_less_order(g2[n].0, g2[n].0, g2[n].0);
    } else if g2.len() < g1.len() {
        let n = g2.len() as int;
        lemma_grouping_keys_agree(g1, g2, headers, n);
        lemma_group_key_is_name(g1, headers, n);
        let j = choose|j: int| 0 <= j < headers.len() && (#[trigger] headers[j]).0 == g1[n].0;
        assert(has_group(g2, headers[j].0));
        let m = choose|m: int| 0 <= m < g2.len() && (#[trigger] g2[m]).0 == g1[n].0;
        assert(g1[m].0 == g2[m].0);
        assert(text_less(g1[m].0, g1[n].0));
        lemma_text_less_order(g1[n].0, g1[n].0, g1[n].0);
    } else {
        lemma_grouping_keys_agree(g1, g2, headers, g1.len() as int);
        assert forall|i: int| 0 <= i < g1.len() implies g1[i] == g2[i] by {
            assert(g1[i].0 == g2[i].0);
            assert(g1[i].1 == values_named(headers, g1[i].0));
            assert(g2[i].1 == values_named(headers, g2[i].0));
        }
        assert(g1 =~= g2);
    }
}

/// The quoted, escaped JSON string literal of `s`.
pub uninterp spec fn json_string_of(s: Seq<char>) -> Seq<char>;

#[verifier::external_type_specification]
#[verifier::external_body]
pub struct ExJsonError(serde_json::Error);

/// Whether `s` holds no quote, no backslash and no control character below U+0020: the
/// characters that a JSON string literal must escape.
pub open spec fn plain_json_text(s: Seq<char>) -> bool {
    forall|i: int|
        0 <= i < s.len() ==> (#[trigger] s[i]) != '"' && s[i] != '\\' && (s[i] as u32) >= 0x20
}

/// Relies on `serde_json::to_string` applied to a `str`: the text as a JSON string literal,
/// quoted and escaped. Serialising a `str` only writes into a `Vec`, whose writes never fail,
/// so the result is `Ok`. Its escape table escapes only quote, backslash and characters below
/// U+0020, so other text comes back merely wrapped in quotes.
#[verifier::external_body]
fn json_quote(s: &str) -> (r: Result<String, serde_json::Error>)
    ensures
        r is Ok,
        r matches Ok(t) ==> t@ == json_string_of(s@),
        r matches Ok(t) ==> (plain_json_text(s@) ==> t@ == seq!['"'] + s@ + seq!['"']),
{
    serde_json::to_string(s)
}

/// `s` as a JSON string literal.
fn quoted(s: &str) -> (r: String)
    ensures
        r@ == json_string_of(s@),
        plain_json_text(s@) ==> r@ == seq!['"'] + s@ + seq!['"'],
{
    match json_quote(s) {
        Ok(t) => t,
        Err(_) => String::new(),
    }
}

/// A JSON object whose members are `members`, in order.
pub open spec fn json_object(members: Seq<Seq<char>>) -> Seq<char> {
    "{"@ + join(members, ","@) + "}"@
}

/// The JSON value of one header name: a string for a single value, else an array.
pub open spec fn json_header_value(values: Seq<Seq<char>>) -> Seq<char> {
    if values.len() == 1 {
        json_string_of(values[0])
    } else {
        "["@ + join(values.map_values(|t: Seq<char>| json_string_of(t)), ","@) + "]"@
    }
}

/// The JSON object of grouped headers.
pub open spec fn json_header_object(g: HeaderGroups) -> Seq<char> {
    json_object(
        g.map_values(
            |e: (Seq<char>, Seq<Seq<char>>)| json_string_of(e.0) + ":"@ + json_header_value(e.1),
        ),
    )
}

/// Status fields as texts: version, code, reason phrase.
pub type StatusView = (Option<Seq<char>>, Option<u16>, Option<Seq<char>>);

/// The members of the status object; absent fields are omitted.
pub open spec fn status_members(st: StatusView) -> Seq<Seq<char>> {
    (match st.0 {
        Some(v) => seq!["\"version\":"@ + json_string_of(v)],
        None => seq![],
    }) + (match st.1 {
        Some(c) => seq!["\"code\":"@ + decimal(c as nat)],
        None => seq![],
    }) + (match st.2 {
        Some(s) => seq!["\"string\":"@ + json_string_of(s)],
        None => seq![],
    })
}

/// The JSON text of a record with the given status, grouped headers and body; absent fields
/// are omitted.
pub open spec fn record_json(
    status: Option<StatusView>,
    header: Option<HeaderGroups>,
    body: Option<Seq<char>>,
) -> Seq<char> {
    json_object(
        (match status {
            Some(st) => seq!["\"status\":"@ + json_object(status_members(st))],
            None => seq![],
        }) + (match header {
            Some(g) => seq!["\"header\":"@ + json_header_object(g)],
            None => seq![],
        }) + (match body {
            Some(b) => seq!["\"body\":"@ + json_string_of(b)],
            None => seq![],
        }),
    )
}

/// The texts of an optional string.
pub open spec fn opt_view(s: Option<String>) -> Option<Seq<char>> {
    match s {
        Some(t) => Some(t@),
        None => None,
    }
}

/// The texts of an optional string slice.
pub open spec fn opt_str_view(s: Option<&'static str>) -> Option<Seq<char>> {
    match s {
        Some(t) => Some(t@),
        None => None,
    }
}

/// The status of `m` as texts, absent when version, code and reason are all absent.
pub open spec fn metadata_status(m: HttpResponseMetadata) -> Option<StatusView> {
    if m.version is None && m.status_code is None && m.status_string is None {
        None
    } else {
        Some((opt_view(m.version), m.status_code, opt_str_view(m.status_string)))
    }
}

/// The status object of the JSON rendering.
pub struct HttpJsonStatus {
    pub version: Option<String>,
    pub code: Option<u16>,
    pub string: Option<&'static str>,
}

impl HttpJsonStatus {
    pub open spec fn view_status(&self) -> StatusView {
        (opt_view(self.version), self.code, opt_str_view(self.string))
    }

    /// This status as a JSON object.
    pub fn to_json(&self) -> (r: String)
        ensures
            r@ == json_object(status_members(self.view_status())),
    {
        let mut members: Vec<String> = Vec::new();
        if let Some(v) = &self.version {
            let mut m = String::from_str("\"version\":");
            m.append(quoted(v.as_str()).as_str());
            members.push(m);
        }
        if let Some(c) = self.code {
            let mut m = String::from_str("\"code\":");
            push_decimal(&mut m, c);
            members.push(m);
        }
        if let Some(s) = self.string {
            let mut m = String::from_str("\"string\":");
            m.append(quoted(s).as_str());
            members.push(m);
        }
        assert(string_texts(members@) =~= status_members(self.view_status()));
        json_object_of(&members)
    }
}

/// A JSON object whose members are the texts of `members`, each already rendered as
/// `key:value`.
pub fn json_object_of(members: &Vec<String>) -> (r: String)
    ensures
        r@ == json_object(string_texts(members@)),
{
    let mut out = String::from_str("{");
    out.append(join_strings(members, ",").as_str());
    out.append("}");
    out
}

/// A JSON array whose items are the texts of `items`, each already rendered as JSON.
pub fn json_array_of(items: &Vec<String>) -> (r: String)
    ensures
        r@ == "["@ + join(string_texts(items@), ","@) + "]"@,
{
    let mut out = String::from_str("[");
    out.append(join_strings(items, ",").as_str());
    out.append("]");
    out
}

/// The JSON value of one header name.
fn header_value_json(value: &JsonHeadersValue) -> (r: String)
    requires
        value.values().len() >= 1,
        *value is One <==> value.values().len() == 1,
    ensures
        r@ == json_header_value(value.values()),
{
    match value {
        JsonHeadersValue::One(s) => quoted(s.as_str()),
        JsonHeadersValue::Many(list) => {
            let mut items: Vec<String> = Vec::new();
            let mut i: usize = 0;
            while i < list.len()
                invariant
                    i <= list@.len(),
                    string_texts(items@) == string_texts(list@).subrange(0, i as int).map_values(
                        |t: Seq<char>| json_string_of(t),
                    ),
                decreases list@.len() - i,
            {
                let q = quoted(list[i].as_str());
                let ghost before = items@;
                items.push(q);
                assert(string_texts(items@) =~= string_texts(before).push(q@));
                assert(string_texts(list@).subrange(0, i + 1).map_values(
                    |t: Seq<char>| json_string_of(t),
                ) =~= string_texts(list@).subrange(0, i as int).map_values(
                    |t: Seq<char>| json_string_of(t),
                ).push(json_string_of(list@[i as int]@)));
                i = i + 1;
            }
            assert(string_texts(list@).subrange(0, list@.len() as int) =~= string_texts(list@));
            json_array_of(&items)
        },
    }
}

/// The JSON object of grouped headers.
fn header_object_json(entries: &Vec<(String, JsonHeadersValue)>) -> (r: String)
    requires
        forall|i: int|
            0 <= i < entries@.len() ==> (#[trigger] entries@[i]).1.values().len() >= 1 && (
            entries@[i].1 is One <==> entries@[i].1.values().len() == 1),
    ensures
        r@ == json_header_object(entries_view(entries@)),
{
    let mut members: Vec<String> = Vec::new();
    let mut i: usize = 0;
    while i < entries.len()
        invariant
            i <= entries@.len(),
            forall|k: int|
                0 <= k < entries@.len() ==> (#[trigger] entries@[k]).1.values().len() >= 1 && (
                entries@[k].1 is One <==> entries@[k].1.values().len() == 1),
            string_texts(members@) == entries_view(entries@).subrange(0, i as int).map_values(
                |e: (Seq<char>, Seq<Seq<char>>)| json_string_of(e.0) + ":"@ + json_header_value(e.1),
            ),
        decreases entries@.len() - i,
    {
        let mut m = quoted(entries[i].0.as_str());
        m.append(":");
        m.append(header_value_json(&entries[i].1).as_str());
        let ghost before = members@;
        members.push(m);
        assert(string_texts(members@) =~= string_texts(before).push(m@));
        assert(entries_view(entries@).subrange(0, i + 1).map_values(
            |e: (Seq<char>, Seq<Seq<char>>)| json_string_of(e.0) + ":"@ + json_header_value(e.1),
        ) =~= entries_view(entries@).subrange(0, i as int).map_values(
            |e: (Seq<char>, Seq<Seq<char>>)| json_string_of(e.0) + ":"@ + json_header_value(e.1),
        ).push(
            json_string_of(entries@[i as int].0@) + ":"@ + json_header_value(
                entries@[i as int].1.values(),
            ),
        ));
        assert(string_texts(members@) =~= entries_view(entries@).subrange(0, i + 1).map_values(
            |e: (Seq<char>, Seq<Seq<char>>)| json_string_of(e.0) + ":"@ + json_header_value(e.1),
        ));
        i = i + 1;
    }
    assert(entries_view(entries@).subrange(0, entries@.len() as int) =~= entries_view(entries@));
    json_object_of(&members)
}

/// The JSON rendering of a response record before serialisation.
pub struct HttpJsonRecord {
    pub status: Option<HttpJsonStatus>,
    pub header: Option<Vec<(String, JsonHeadersValue)>>,
    pub body: Option<String>,
}

/// Copies headers, keeping their texts.
fn clone_headers(headers: &Vec<HttpHeader>) -> (r: Vec<HttpHeader>)
    ensures
        header_views(r@) == header_views(headers@),
{
    let mut out: Vec<HttpHeader> = Vec::new();
    let mut i: usize = 0;
    while i < headers.len()
        invariant
            i <= headers@.len(),
            header_views(out@) == header_views(headers@).subrange(0, i as int),
        decreases headers@.len() - i,
    {
        let h = HttpHeader { name: headers[i].name.clone(), value: headers[i].value.clone() };
        let ghost before = out@;
        out.push(h);
        assert(header_views(out@) =~= header_views(before).push(headers@[i as int]@));
        assert(header_views(headers@).subrange(0, i + 1) =~= header_views(headers@).subrange(
            0,
            i as int,
        ).push(headers@[i as int]@));
        i = i + 1;
    }
    assert(header_views(headers@).subrange(0, headers@.len() as int) =~= header_views(headers@));
    out
}

fn clone_opt(s: &Option<String>) -> (r: Option<String>)
    ensures
        opt_view(r) == opt_view(*s),
{
    match s {
        Some(t) => Some(t.clone()),
        None => None,
    }
}

impl HttpJsonRecord {
    /// The status as texts.
    pub open spec fn status_view(&self) -> Option<StatusView> {
        match self.status {
            Some(st) => Some(st.view_status()),
            None => None,
        }
    }

    /// The grouped headers as texts.
    pub open spec fn header_view(&self) -> Option<HeaderGroups> {
        match self.header {
            Some(entries) => Some(entries_view(entries@)),
            None => None,
        }
    }

    /// The JSON rendering of `record`: status (absent when version, code and reason all are),
    /// headers grouped by name, and body.
    pub fn from_record(record: &HttpResponseRecord) -> (r: HttpJsonRecord)
        ensures
            match r.status {
                Some(st) => metadata_status(record.metadata) == Some(st.view_status()),
                None => metadata_status(record.metadata) is None,
            },
            record.metadata.headers is None ==> r.header is None,
            record.metadata.headers matches Some(hs) ==> (r.header matches Some(entries)
                && groups_headers(entries@, header_views(hs@))),
            opt_view(r.body) == opt_view(record.body),
    {
        let m = &record.metadata;
        let header = match &m.headers {
            Some(hs) => Some(headers_to_json(clone_headers(hs))),
            None => None,
        };
        let status = if m.version.is_none() && m.status_code.is_none() && m.status_string.is_none() {
            None
        } else {
            Some(HttpJsonStatus { version: clone_opt(&m.version), code: m.status_code, string: m.status_string })
        };
        HttpJsonRecord { status, header, body: clone_opt(&record.body) }
    }

    /// Serialises this record as compact JSON; absent fields are omitted.
    pub fn to_json(&self) -> (r: String)
        requires
            self.header matches Some(entries) ==> forall|i: int|
                0 <= i < entries@.len() ==> (#[trigger] entries@[i]).1.values().len() >= 1 && (
                entries@[i].1 is One <==> entries@[i].1.values().len() == 1),
        ensures
            r@ == record_json(self.status_view(), self.header_view(), opt_view(self.body)),
    {
        let mut members: Vec<String> = Vec::new();
        if let Some(st) = &self.status {
            let mut m = String::from_str("\"status\":");
            m.append(st.to_json().as_str());
            members.push(m);
        }
        if let Some(entries) = &self.header {
            let mut m = String::from_str("\"header\":");
            m.append(header_object_json(entries).as_str());
            members.push(m);
        }
        if let Some(b) = &self.body {
            let mut m = String::from_str("\"body\":");
            m.append(quoted(b.as_str()).as_str());
            members.push(m);
        }
        proof {
            assert(string_texts(members@) =~= (match self.status_view() {
                Some(st) => seq!["\"status\":"@ + json_object(status_members(st))],
                None => seq![],
            }) + (match self.header_view() {
                Some(g) => seq!["\"header\":"@ + json_header_object(g)],
                None => seq![],
            }) + (match opt_view(self.body) {
                Some(b) => seq!["\"body\":"@ + json_string_of(b)],
                None => seq![],
            }));
        }
        json_object_of(&members)
    }
}

} // verus!
