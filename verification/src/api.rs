//! Bodies, addresses and answers of the three calls to the server.

use crate::chunk::{stored_parts, ChunkUploadResult};
use crate::string_map::{put, StringMap};
use crate::text::{
    contains_text, decimal, decimal_text, lower_text, lowered, occurs_in, parse_u32, parsed_u32,
};
use serde_json::Value;
use std::collections::HashMap;
use vstd::prelude::*;
use vstd::string::*;

verus! {

/// The answer to a request for the URLs of some parts: part number, as text, to URL.
#[derive(Debug)]
pub struct UploadUrlsBatchResponse {
    pub urls: StringMap<String>,
}

/// A part of an upload that is to be completed.
#[derive(Debug)]
pub struct CompletePart {
    pub etag: String,
    pub part_number: u32,
}

/// The request to complete an upload: its parts in ascending order.
#[derive(Debug)]
pub struct CompleteRequest {
    pub parts: Vec<CompletePart>,
}

/// The URL for part `n`: that of the last pair whose key stands for `n`.
pub open spec fn url_for(urls: Seq<(Seq<char>, Seq<char>)>, n: u32) -> Option<Seq<char>>
    decreases urls.len(),
{
    if urls.len() == 0 {
        None
    } else if parsed_u32(urls.last().0) == Some(n) {
        Some(urls.last().1)
    } else {
        url_for(urls.drop_last(), n)
    }
}

/// `m` holds the URL for each part that has one.
pub open spec fn urls_by_part(m: Map<u32, String>, urls: Seq<(Seq<char>, Seq<char>)>) -> bool {
    forall|n: u32|
        match url_for(urls, n) {
            Some(u) => #[trigger] m.contains_key(n) && m[n]@ == u,
            None => !m.contains_key(n),
        }
}

impl UploadUrlsBatchResponse {
    /// The URLs by part number. A key that is no number is passed over.
    pub fn into_part_map(self) -> (r: HashMap<u32, String>)
        ensures
            urls_by_part(r@, self.urls@),
    {
        broadcast use vstd::std_specs::hash::group_hash_axioms;

        let ghost urls = self.urls@;
        let mut r: HashMap<u32, String> = HashMap::new();
        let mut i: usize = 0;
        while i < self.urls.len()
            invariant
                urls == self.urls@,
                i <= urls.len(),
                urls_by_part(r@, urls.take(i as int)),
            decreases urls.len() - i,
        {
            broadcast use vstd::std_specs::hash::group_hash_axioms;

            let ghost before = r@;
            assert(urls.take(i + 1).drop_last() =~= urls.take(i as int));
            assert(urls.take(i + 1).last() == urls[i as int]);
            if let Some(n) = parse_u32(self.urls.key_at(i).as_str()) {
                r.insert(n, self.urls.value_at(i).clone());
            }
            assert(urls_by_part(r@, urls.take(i + 1))) by {
                assert forall|n: u32|
                    match url_for(urls.take(i + 1), n) {
                        Some(u) => #[trigger] r@.contains_key(n) && r@[n]@ == u,
                        None => !r@.contains_key(n),
                    } by {
                    assert(before.contains_key(n) <==> url_for(urls.take(i as int), n) is Some);
                }
            }
            i += 1;
        }
        assert(urls.take(urls.len() as int) =~= urls);
        r
    }
}

/// The text of a JSON object with these text fields and, where they are there, a field with
/// a list of numbers and a field with a list of parts. A part is an object: its ETag stands
/// under the first of the two keys, its number under the second.
pub uninterp spec fn json_object(
    fields: Seq<(Seq<char>, Seq<char>)>,
    list: Option<(Seq<char>, Seq<u32>)>,
    table: Option<(Seq<char>, Seq<char>, Seq<char>, Seq<(u32, Seq<char>)>)>,
) -> Seq<char>;

/// The texts of the fields of an object.
pub open spec fn fields_of(v: Seq<(String, String)>) -> Seq<(Seq<char>, Seq<char>)> {
    v.map_values(|p: (String, String)| (p.0@, p.1@))
}

/// The view of an optional field with a list of numbers.
pub open spec fn list_opt(l: Option<(&str, &[u32])>) -> Option<(Seq<char>, Seq<u32>)> {
    match l {
        Some(p) => Some((p.0@, p.1@)),
        None => None,
    }
}

/// The view of an optional field with a list of parts.
pub open spec fn table_opt(
    l: Option<(&str, &str, &str, &Vec<CompletePart>)>,
) -> Option<(Seq<char>, Seq<char>, Seq<char>, Seq<(u32, Seq<char>)>)> {
    match l {
        Some(p) => Some((p.0@, p.1@, p.2@, complete_parts(p.3@))),
        None => None,
    }
}

/// `serde_json::to_string` of an object with text fields and perhaps one field with a list
/// of numbers and one with a list of parts. It depends on the object alone, and does not
/// fail: its keys are strings, and serializing texts and numbers never fails. The layout of
/// the text is not stated.
#[verifier::external_body]
fn object_text(
    fields: &Vec<(String, String)>,
    list: Option<(&str, &[u32])>,
    table: Option<(&str, &str, &str, &Vec<CompletePart>)>,
) -> (r: Result<String, String>)
    ensures
        r is Ok,
        r->Ok_0@ == json_object(fields_of(fields@), list_opt(list), table_opt(table)),
{
    let texts = fields.iter().cloned().map(|p| (p.0, Value::from(p.1)));
    let lists = list.iter().map(|p| (p.0.to_string(), Value::from(p.1)));
    let tables = table.iter().map(|t| {
        let parts = t.3.iter().map(|p| [(t.1, Value::from(p.etag.clone())), (t.2, p.part_number.into())]);
        (t.0.to_string(), parts.map(Value::from_iter).collect())
    });
    let object: Value = texts.chain(lists).chain(tables).collect();
    serde_json::to_string(&object).map_err(|e| e.to_string())
}

impl View for CompletePart {
    type V = (u32, Seq<char>);

    open spec fn view(&self) -> (u32, Seq<char>) {
        (self.part_number, self.etag@)
    }
}

/// The numbers and ETags behind a vector of parts.
pub open spec fn complete_parts(v: Seq<CompletePart>) -> Seq<(u32, Seq<char>)> {
    v.map_values(|p: CompletePart| p@)
}

/// The part numbers never go down.
pub open spec fn ascending(s: Seq<(u32, Seq<char>)>) -> bool {
    forall|i: int, j: int| 0 <= i < j < s.len() ==> (#[trigger] s[i]).0 <= (#[trigger] s[j]).0
}

/// The part has number `n`.
pub open spec fn bears(n: u32) -> spec_fn((u32, Seq<char>)) -> bool {
    |p: (u32, Seq<char>)| p.0 == n
}

/// The parts with number `n`, in their order.
pub open spec fn numbered(s: Seq<(u32, Seq<char>)>, n: u32) -> Seq<(u32, Seq<char>)> {
    s.filter(bears(n))
}

/// `r` is `s` sorted by part number, equal numbers in the order they had.
pub open spec fn sorted_by_number(r: Seq<(u32, Seq<char>)>, s: Seq<(u32, Seq<char>)>) -> bool {
    &&& ascending(r)
    &&& forall|n: u32| #[trigger] numbered(r, n) == numbered(s, n)
}

/// Where every number is greater than `n`, none is `n`.
proof fn lemma_none_numbered(s: Seq<(u32, Seq<char>)>, n: u32)
    requires
        forall|i: int| 0 <= i < s.len() ==> (#[trigger] s[i]).0 != n,
    ensures
        numbered(s, n) == Seq::<(u32, Seq<char>)>::empty(),
    decreases s.len(),
{
    reveal(Seq::filter);
    if s.len() > 0 {
        let front = s.drop_last();
        assert forall|i: int| 0 <= i < front.len() implies (#[trigger] front[i]).0 != n by {
            assert(front[i] == s[i]);
        }
        lemma_none_numbered(front, n);
        assert(s[s.len() - 1] == s.last());
    }
    assert(numbered(s, n) =~= Seq::<(u32, Seq<char>)>::empty());
}

/// Inserting an item where it belongs is, for each number, appending it.
proof fn lemma_insert_sorted(s: Seq<(u32, Seq<char>)>, k: int, x: (u32, Seq<char>), n: u32)
    requires
        0 <= k <= s.len(),
        forall|i: int| k <= i < s.len() ==> (#[trigger] s[i]).0 > x.0,
    ensures
        numbered(s.insert(k, x), n) == numbered(s.push(x), n),
{
    let f = bears(n);
    let a = s.take(k);
    let b = s.skip(k);
    assert(s =~= a + b);
    assert(s.insert(k, x) =~= a.push(x) + b);
    Seq::filter_distributes_over_add(a, b, f);
    Seq::filter_distributes_over_add(a.push(x), b, f);
    a.lemma_filter_push(x, f);
    s.lemma_filter_push(x, f);
    if x.0 == n {
        assert forall|i: int| 0 <= i < b.len() implies (#[trigger] b[i]).0 != n by {
            assert(b[i] == s[k + i]);
        }
        lemma_none_numbered(b, n);
        assert(a.push(x).filter(f) + b.filter(f) =~= a.push(x).filter(f));
        assert(a.filter(f) + b.filter(f) =~= a.filter(f));
    }
}

/// There is only one way to sort parts by number and keep equal numbers in order.
pub proof fn lemma_sorted_unique(a: Seq<(u32, Seq<char>)>, b: Seq<(u32, Seq<char>)>, s: Seq<(u32, Seq<char>)>)
    requires
        sorted_by_number(a, s),
        sorted_by_number(b, s),
    ensures
        a == b,
{
    assert forall|n: u32| #[trigger] numbered(a, n) == numbered(b, n) by {
        assert(numbered(a, n) == numbered(s, n));
        assert(numbered(b, n) == numbered(s, n));
    }
    lemma_same_numbered(a, b);
}

/// Ascending parts are determined by the parts of each number.
proof fn lemma_same_numbered(a: Seq<(u32, Seq<char>)>, b: Seq<(u32, Seq<char>)>)
    requires
        ascending(a),
        ascending(b),
        forall|n: u32| #[trigger] numbered(a, n) == numbered(b, n),
    ensures
        a == b,
    decreases a.len(),
{
    broadcast use vstd::seq_lib::group_filter_ensures;

    reveal(Seq::filter);
    if a.len() == 0 {
        if b.len() > 0 {
            let n = b.last().0;
            assert(numbered(b, n).len() > 0);
            assert(numbered(a, n).len() == 0);
        }
        assert(a =~= b);
    } else {
        let m = a.last().0;
        assert(numbered(a, m).last() == a.last());
        assert(b.len() > 0);
        let w = b.last().0;
        assert(numbered(b, w).last() == b.last());
        assert(numbered(a, w).len() > 0);
        assert(numbered(b, m).len() > 0);
        lemma_numbered_bounded(a, w);
        lemma_numbered_bounded(b, m);
        assert(m == w);
        assert(a.last() == b.last());
        let x = a.drop_last();
        let y = b.drop_last();
        assert forall|n: u32| #[trigger] numbered(x, n) == numbered(y, n) by {
            assert(numbered(a, n) == numbered(b, n));
            if n == m {
                assert(numbered(a, n).drop_last() =~= numbered(x, n));
                assert(numbered(b, n).drop_last() =~= numbered(y, n));
            }
        }
        lemma_same_numbered(x, y);
        assert(a =~= x.push(a.last()));
        assert(b =~= y.push(b.last()));
    }
}

/// A number that occurs is at most the last one.
proof fn lemma_numbered_bounded(s: Seq<(u32, Seq<char>)>, n: u32)
    requires
        ascending(s),
        numbered(s, n).len() > 0,
    ensures
        s.len() > 0,
        n <= s.last().0,
{
    if forall|i: int| 0 <= i < s.len() ==> (#[trigger] s[i]).0 != n {
        lemma_none_numbered(s, n);
    } else {
        let i = choose|i: int| 0 <= i < s.len() && (#[trigger] s[i]).0 == n;
        assert(s[i].0 == n);
    }
}

/// The body of the request to complete an upload with these parts.
pub open spec fn parts_json(parts: Seq<(u32, Seq<char>)>) -> Seq<char> {
    json_object(Seq::empty(), None, Some(("parts"@, "ETag"@, "PartNumber"@, parts)))
}

impl CompleteRequest {
    /// The request for these results.
    pub fn from_upload_results(results: Vec<ChunkUploadResult>) -> (r: Self)
        ensures
            sorted_by_number(complete_parts(r.parts@), stored_parts(results@)),
    {
        let ghost all = stored_parts(results@);
        let mut parts: Vec<CompletePart> = Vec::new();
        let mut i: usize = 0;
        assert(complete_parts(parts@) =~= all.take(0));
        while i < results.len()
            invariant
                i <= results@.len(),
                all == stored_parts(results@),
                sorted_by_number(complete_parts(parts@), all.take(i as int)),
            decreases results@.len() - i,
        {
            let ghost before = complete_parts(parts@);
            let ghost x = all[i as int];
            let number: u32 = results[i].part_number;
            let mut k: usize = parts.len();
            while k > 0 && parts[k - 1].part_number > number
                invariant
                    k <= parts@.len(),
                    before == complete_parts(parts@),
                    forall|j: int| k <= j < parts@.len() ==> (#[trigger] before[j]).0 > number,
                decreases k,
            {
                assert(before[k - 1].0 == parts@[k - 1].part_number);
                k -= 1;
            }
            proof {
                if k > 0 {
                    assert(before[k - 1].0 == parts@[k - 1].part_number);
                    assert(before[k - 1].0 <= number);
                }
                assert forall|n: u32| #[trigger] numbered(before.insert(k as int, x), n) == numbered(all.take(i + 1), n) by {
                    lemma_insert_sorted(before, k as int, x, n);
                    let f = bears(n);
                    before.lemma_filter_push(x, f);
                    all.take(i as int).lemma_filter_push(x, f);
                    assert(numbered(before, n) == numbered(all.take(i as int), n));
                    assert(all.take(i + 1) =~= all.take(i as int).push(x));
                }
            }
            parts.insert(k, CompletePart { etag: results[i].etag.clone(), part_number: number });
            proof {
                let after = complete_parts(parts@);
                assert(after =~= before.insert(k as int, x));
                assert forall|a: int, b: int| 0 <= a < b < after.len() implies (#[trigger] after[a]).0 <= (#[trigger] after[b]).0 by {
                    let pa = if a < k { a } else { a - 1 };
                    let pb = if b < k { b } else { b - 1 };
                    if a != k {
                        assert(after[a] == before[pa]);
                    }
                    if b != k {
                        assert(after[b] == before[pb]);
                    }
                    if b == k {
                        assert(before[a].0 <= before[k - 1].0 || a == k - 1);
                    }
                }
            }
            i += 1;
        }
        assert(all.take(all.len() as int) =~= all);
        CompleteRequest { parts }
    }

    /// The body of the request.
    pub fn serialize(&self) -> (r: Result<String, String>)
        ensures
            r matches Ok(t) && t@ == parts_json(complete_parts(self.parts@)),
    {
        let fields: Vec<(String, String)> = Vec::new();
        assert(fields_of(fields@) =~= Seq::empty());
        match object_text(&fields, None, Some(("parts", "ETag", "PartNumber", &self.parts))) {
            Ok(t) => Ok(t),
            Err(e) => {
                let mut m = "Failed to serialize: ".to_string();
                m.append(e.as_str());
                Err(m)
            },
        }
    }
}

/// The fields of the start call: the caller's parameters, overridden by what describes the
/// file.
pub open spec fn start_fields(
    file_name: Seq<char>,
    file_hash: Seq<char>,
    file_size: u64,
    user_params: Seq<(Seq<char>, Seq<char>)>,
) -> Seq<(Seq<char>, Seq<char>)> {
    put(
        put(
            put(user_params, "fileName"@, file_name),
            "fileHash"@,
            file_hash,
        ),
        "fileSize"@,
        decimal(file_size as nat),
    )
}

/// The fields of the start call.
pub fn start_upload_fields(
    file_name: &str,
    file_hash: &str,
    file_size: u64,
    user_params: &StringMap<String>,
) -> (r: StringMap<String>)
    requires
        user_params.wf(),
    ensures
        r.wf(),
        r@ == start_fields(file_name@, file_hash@, file_size, user_params@),
{
    let mut body = user_params.duplicate();
    body.insert("fileName".to_string(), file_name.to_string());
    body.insert("fileHash".to_string(), file_hash.to_string());
    body.insert("fileSize".to_string(), decimal_text(file_size));
    body
}

/// The pairs of a map, in its order.
fn pairs_of(m: &StringMap<String>) -> (r: Vec<(String, String)>)
    ensures
        fields_of(r@) == m@,
{
    let mut r: Vec<(String, String)> = Vec::new();
    let mut i: usize = 0;
    while i < m.len()
        invariant
            i <= m@.len(),
            fields_of(r@) =~= m@.take(i as int),
        decreases m@.len() - i,
    {
        let ghost before = fields_of(r@);
        r.push((m.key_at(i).clone(), m.value_at(i).clone()));
        assert(fields_of(r@) =~= before.push(m@[i as int]));
        i += 1;
    }
    assert(fields_of(r@) =~= m@);
    r
}

/// The body of the start call.
pub fn start_upload_body(
    file_name: &str,
    file_hash: &str,
    file_size: u64,
    user_params: &StringMap<String>,
) -> (r: Result<String, String>)
    requires
        user_params.wf(),
    ensures
        r matches Ok(t) && t@ == json_object(
            start_fields(file_name@, file_hash@, file_size, user_params@),
            None,
            None,
        ),
{
    let fields = pairs_of(&start_upload_fields(file_name, file_hash, file_size, user_params));
    match object_text(&fields, None, None) {
        Ok(t) => Ok(t),
        Err(e) => {
            let mut m = "Failed to serialize start_upload body: ".to_string();
            m.append(e.as_str());
            Err(m)
        },
    }
}

/// The body of the request for the URLs of some parts.
pub fn upload_urls_batch_body(key: &str, upload_id: &str, part_numbers: &[u32]) -> (r: Result<String, String>)
    ensures
        r matches Ok(t) && t@ == json_object(
            seq![("key"@, key@), ("uploadId"@, upload_id@)],
            Some(("parts"@, part_numbers@)),
            None,
        ),
{
    let mut fields: Vec<(String, String)> = Vec::new();
    fields.push(("key".to_string(), key.to_string()));
    fields.push(("uploadId".to_string(), upload_id.to_string()));
    assert(fields_of(fields@) =~= seq![("key"@, key@), ("uploadId"@, upload_id@)]);
    match object_text(&fields, Some(("parts", part_numbers)), None) {
        Ok(t) => Ok(t),
        Err(e) => {
            let mut m = "Failed to serialize batch url body: ".to_string();
            m.append(e.as_str());
            Err(m)
        },
    }
}

/// The body of the request to complete an upload.
pub fn complete_upload_body(results: Vec<ChunkUploadResult>) -> (r: Result<String, String>)
    ensures
        exists|parts: Seq<(u32, Seq<char>)>|
            #[trigger] sorted_by_number(parts, stored_parts(results@)) && r is Ok && r->Ok_0@ == parts_json(
                parts,
            ),
{
    CompleteRequest::from_upload_results(results).serialize()
}

/// The address of the request to complete an upload.
pub fn complete_upload_url(base_url: &str, upload_id: &str, key: &str) -> (r: String)
    ensures
        r@ == base_url@ + "/"@ + upload_id@ + "/"@ + key@,
{
    let mut s = base_url.to_string();
    s.append("/");
    s.append(upload_id);
    s.append("/");
    s.append(key);
    s
}

/// The error of a completing call is one that a pause may cure.
pub open spec fn retryable(error: Seq<char>) -> bool {
    let e = lowered(error);
    occurs_in(e, "timed out"@) || occurs_in(e, "timeout"@) || occurs_in(
        e,
        "request is not finished within timeout"@,
    ) || occurs_in(e, "network connection was lost"@) || occurs_in(
        e,
        "nsurlerrordomain code=-1001"@,
    ) || occurs_in(e, "nsurlerrordomain code=-1005"@)
}

/// Whether the error of a completing call is one that a pause may cure.
pub fn is_retryable_complete_error(error: &str) -> (r: bool)
    ensures
        r == retryable(error@),
{
    let lower = lower_text(error);
    let e = lower.as_str();
    contains_text(e, "timed out") || contains_text(e, "timeout") || contains_text(
        e,
        "request is not finished within timeout",
    ) || contains_text(e, "network connection was lost") || contains_text(
        e,
        "nsurlerrordomain code=-1001",
    ) || contains_text(e, "nsurlerrordomain code=-1005")
}

} // verus!
