//! What holds of the texts that go over the wire and to the user.

use crate::api::{
    complete_parts, fields_of, json_object, list_opt, numbered, parts_json, retryable, sorted_by_number, start_fields,
    table_opt, url_for, urls_by_part, CompletePart,
};
use crate::config::{unset, UploaderConfig};
use crate::format::{filled, filled_or_empty, human, nearest_double, round_even, scaled, with_number};
use crate::hash::{hash_text, sha256};
use crate::intake::duplicate;
use crate::progress::ProgressNotice;
use crate::queue::{entries, queued};
use crate::report::{reports, AggregateProgress, FileProgress};
use crate::runtime::{changes_of, not_provided, notices};
use crate::session::{str_opt, text_opt};
use crate::state::{GlobalUploaderState, UploadState};
use crate::string_map::{lemma_put, lookup, put, unique};
use crate::text::{
    all_digits, decimal, digit, hex, hex_digit, lower, lowered, number, occurs_at, occurs_in, parsed_u32, replaced,
};
use crate::transfers::texts;
use vstd::arithmetic::power2::{lemma_pow2_pos, lemma_pow2_unfold, pow2};
use vstd::prelude::*;
use vstd::string::*;
use vstd::utf8::encode_utf8;

verus! {

/// Digits read from the left: each one more makes ten of what was there and adds itself.
pub proof fn law_number_of_digits(s: Seq<char>, c: char)
    ensures
        number(Seq::empty()) == 0,
        number(s.push(c)) == number(s) * 10 + (c as int - 48),
        all_digits(s) <==> forall|i: int| 0 <= i < s.len() ==> 48 <= (#[trigger] s[i]) as int && s[i] as int <= 57,
{
    assert(s.push(c).drop_last() =~= s);
}

/// A number written in decimal reads back as itself. It has a digit at least, and no zero in
/// front unless it is zero.
pub proof fn law_decimal_reads_back(n: nat)
    ensures
        all_digits(decimal(n)),
        number(decimal(n)) == n,
        decimal(n).len() > 0,
        n > 0 ==> decimal(n)[0] != '0',
        decimal(0) == seq!['0'],
    decreases n,
{
    assert(digit(0) == '0');
    if n < 10 {
        let s = decimal(n);
        assert(s =~= Seq::<char>::empty().push(digit(n)));
        law_number_of_digits(Seq::empty(), digit(n));
        assert(digit(n) as int == 48 + n);
    } else {
        law_decimal_reads_back(n / 10);
        let front = decimal(n / 10);
        law_number_of_digits(front, digit(n % 10));
        assert(digit(n % 10) as int == 48 + n % 10);
        assert forall|i: int| 0 <= i < decimal(n).len() implies 48 <= (#[trigger] decimal(n)[i]) as int <= 57 by {
            if i < front.len() {
                assert(decimal(n)[i] == front[i]);
            }
        }
    }
}

/// A key stands for the number it is the decimal text of, with a plus sign in front or not.
/// A key with anything but digits behind its first character, or without any digit, stands
/// for none.
pub proof fn law_key_stands_for_number(n: u32, s: Seq<char>, i: int)
    ensures
        parsed_u32(decimal(n as nat)) == Some(n),
        parsed_u32(seq!['+'] + decimal(n as nat)) == Some(n),
        parsed_u32(Seq::empty()) is None,
        parsed_u32(seq!['+']) is None,
        1 <= i < s.len() && !(48 <= s[i] as int <= 57) ==> parsed_u32(s) is None,
        s.len() > 0 && s[0] != '+' && !(48 <= s[0] as int <= 57) ==> parsed_u32(s) is None,
        s.len() > 0 && all_digits(s) && number(s) > u32::MAX ==> parsed_u32(s) is None,
        s.len() > 0 && all_digits(s) && number(s) <= u32::MAX ==> parsed_u32(s) == Some(number(s) as u32),
{
    law_decimal_reads_back(n as nat);
    let d = decimal(n as nat);
    assert(48 <= d[0] as int <= 57);
    let p = seq!['+'] + d;
    assert(p[0] == '+');
    assert(p.skip(1) =~= d);
    assert(seq!['+'].skip(1) =~= Seq::<char>::empty());
    if 1 <= i < s.len() && !(48 <= s[i] as int <= 57) {
        assert(s.skip(1)[i - 1] == s[i]);
        assert(!all_digits(s.skip(1)));
        assert(!all_digits(s));
    }
    if s.len() > 0 && all_digits(s) {
        assert(48 <= s[0] as int <= 57);
        lemma_number_not_negative(s);
    }
    if s.len() > 0 && s[0] != '+' && !(48 <= s[0] as int <= 57) {
        assert(!all_digits(s));
    }
}

proof fn lemma_number_not_negative(s: Seq<char>)
    requires
        all_digits(s),
    ensures
        number(s) >= 0,
    decreases s.len(),
{
    if s.len() > 0 {
        let front = s.drop_last();
        assert forall|i: int| 0 <= i < front.len() implies 48 <= (#[trigger] front[i]) as int <= 57 by {
            assert(front[i] == s[i]);
        }
        lemma_number_not_negative(front);
        assert(s.last() == s[s.len() - 1]);
    }
}

/// Each byte is written as two digits, the higher half first; a digit below ten is its
/// decimal one, the others are the small letters from `a` on.
pub proof fn law_hex_digits(bytes: Seq<u8>, i: int, d: nat)
    requires
        0 <= i < bytes.len(),
        d < 16,
    ensures
        hex(bytes).len() == 2 * bytes.len(),
        hex(bytes)[2 * i] == hex_digit(bytes[i] as nat / 16),
        hex(bytes)[2 * i + 1] == hex_digit(bytes[i] as nat % 16),
        d < 10 ==> hex_digit(d) as int == '0' as int + d,
        d >= 10 ==> hex_digit(d) as int == 'a' as int + (d - 10),
    decreases bytes.len(),
{
    crate::text::lemma_hex_len(bytes);
    crate::text::lemma_hex_len(bytes.drop_last());
    if i < bytes.len() - 1 {
        law_hex_digits(bytes.drop_last(), i, d);
    }
}

/// The hash of a file is written down from the digest of its transfer and its content.
pub proof fn law_hash_is_of_transfer_and_content(t: Seq<char>, content: Seq<u8>)
    ensures
        hash_text(t, content) == hex(sha256(encode_utf8(t) + content)),
{
}

/// A text stands at a place where each of its characters does; it stands in another where it
/// stands at some place.
pub proof fn law_occurs(s: Seq<char>, pat: Seq<char>, i: int)
    ensures
        occurs_at(s, pat, i) <==> 0 <= i && i + pat.len() <= s.len() && forall|j: int|
            0 <= j < pat.len() ==> s[i + j] == #[trigger] pat[j],
        occurs_at(s, pat, i) ==> occurs_in(s, pat),
        occurs_in(s, pat) ==> exists|k: int| occurs_at(s, pat, k),
{
    if 0 <= i && i + pat.len() <= s.len() {
        let sub = s.subrange(i, i + pat.len() as int);
        if forall|j: int| 0 <= j < pat.len() ==> s[i + j] == #[trigger] pat[j] {
            assert(sub =~= pat);
        }
        if sub == pat {
            assert forall|j: int| 0 <= j < pat.len() implies s[i + j] == #[trigger] pat[j] by {
                assert(sub[j] == pat[j]);
            }
        }
    }
}

/// Replacing goes from left to right: what stands before the first occurrence stays, the
/// occurrence gives way, and the rest is done alike. A text without an occurrence stays.
pub proof fn law_replaced_from_the_left(s: Seq<char>, from: Seq<char>, to: Seq<char>, i: int)
    requires
        from.len() > 0,
    ensures
        !occurs_in(s, from) ==> replaced(s, from, to) == s,
        occurs_at(s, from, i) && (forall|k: int| 0 <= k < i ==> !occurs_at(s, from, k)) ==> replaced(s, from, to)
            == s.take(i) + to + replaced(s.skip(i + from.len()), from, to),
    decreases s.len(),
{
    if s.len() >= from.len() {
        let rest = s.skip(1);
        assert forall|k: int| occurs_at(rest, from, k) == (k >= 0 && occurs_at(s, from, k + 1)) by {
            if k >= 0 && k + 1 + from.len() <= s.len() {
                assert(rest.subrange(k, k + from.len() as int) =~= s.subrange(k + 1, k + 1 + from.len() as int));
            }
        }
        if !occurs_at(s, from, 0) {
            law_replaced_from_the_left(rest, from, to, i - 1);
            if !occurs_in(s, from) {
                if occurs_in(rest, from) {
                    let k = choose|k: int| occurs_at(rest, from, k);
                    assert(occurs_at(s, from, k + 1));
                }
                assert(seq![s[0]] + rest =~= s);
            }
            if occurs_at(s, from, i) && (forall|k: int| 0 <= k < i ==> !occurs_at(s, from, k)) {
                assert(i > 0);
                assert(occurs_at(rest, from, i - 1));
                assert forall|k: int| 0 <= k < i - 1 implies !occurs_at(rest, from, k) by {
                    assert(!occurs_at(s, from, k + 1));
                }
                assert(rest.skip(i - 1 + from.len()) =~= s.skip(i + from.len()));
                assert(seq![s[0]] + (rest.take(i - 1) + to + replaced(s.skip(i + from.len()), from, to)) =~= s.take(i)
                    + to + replaced(s.skip(i + from.len()), from, to));
            }
        } else {
            assert(occurs_in(s, from));
            if occurs_at(s, from, i) && (forall|k: int| 0 <= k < i ==> !occurs_at(s, from, k)) {
                assert(i == 0);
                assert(s.take(0) + to + replaced(s.skip(from.len() as int), from, to) =~= to + replaced(
                    s.skip(from.len() as int),
                    from,
                    to,
                ));
            }
        }
    }
}

/// Capitals of the Latin alphabet become small letters; everything else stays.
pub proof fn law_lower_case(s: Seq<char>, i: int)
    ensures
        lowered(s).len() == s.len(),
        0 <= i < s.len() ==> lowered(s)[i] == lower(s[i]),
        0 <= i < s.len() && 'A' as int <= s[i] as int <= 'Z' as int ==> lower(s[i]) as int == s[i] as int + 32,
        0 <= i < s.len() && !('A' as int <= s[i] as int <= 'Z' as int) ==> lower(s[i]) == s[i],
{
}

/// Rounding gives the nearest whole number, and of two that are as near the even one.
pub proof fn law_rounds_to_nearest(n: nat, d: nat)
    requires
        d > 0,
    ensures
        2 * (round_even(n, d) * d - n) <= d,
        2 * (n - round_even(n, d) * d) <= d,
        2 * (round_even(n, d) * d - n) == d || 2 * (n - round_even(n, d) * d) == d ==> round_even(n, d) % 2 == 0,
{
    let q = n / d;
    let r = n % d;
    assert(n == q * d + r && 0 <= r < d) by (nonlinear_arith)
        requires
            q == n / d,
            r == n % d,
            d > 0,
    ;
    assert((q + 1) * d == q * d + d) by (nonlinear_arith);
}

/// What a double-precision number keeps of a whole number: all of it up to 53 bits; beyond,
/// the nearest multiple of the power of two that leaves 53 bits.
pub proof fn law_double_keeps(n: nat)
    ensures
        n < 0x20_0000_0000_0000 ==> nearest_double(n, 1) == n,
        exists|e: nat|
            {
                &&& nearest_double(n, 1) == round_even(n, #[trigger] pow2(e)) * pow2(e)
                &&& n < pow2(e) * 0x20_0000_0000_0000
                &&& e == 0 || 2 * n >= pow2(e) * 0x20_0000_0000_0000
            },
{
    vstd::arithmetic::power2::lemma2_to64();
    lemma_double_from(n, 0);
    if n < 0x20_0000_0000_0000 {
        assert(round_even(n, 1) == n) by {
            assert(n / 1 == n && n % 1 == 0) by (nonlinear_arith);
        }
        assert(n * 1 == n) by (nonlinear_arith);
    }
}

proof fn lemma_double_from(n: nat, e: nat)
    requires
        e == 0 || 2 * n >= pow2(e) * 0x20_0000_0000_0000,
    ensures
        exists|f: nat|
            {
                &&& nearest_double(n, pow2(e)) == round_even(n, #[trigger] pow2(f)) * pow2(f)
                &&& n < pow2(f) * 0x20_0000_0000_0000
                &&& f == 0 || 2 * n >= pow2(f) * 0x20_0000_0000_0000
            },
    decreases 2 * n + 1 - pow2(e),
{
    lemma_pow2_pos(e);
    if n >= pow2(e) * 0x20_0000_0000_0000 {
        lemma_pow2_unfold(e + 1);
        lemma_double_from(n, e + 1);
    }
}

/// A size in multiples of a unit is told in tenths: those nearest to it, and of two as near
/// the even one.
pub proof fn law_scaled_to_tenths(bytes: u64, unit: nat)
    requires
        unit > 0,
    ensures
        exists|tenths: nat|
            {
                let whole = nearest_double(bytes as nat, 1);
                &&& scaled(bytes, unit) == #[trigger] decimal(tenths / 10) + "."@ + decimal(tenths % 10)
                &&& 2 * (tenths * unit - 10 * whole) <= unit
                &&& 2 * (10 * whole - tenths * unit) <= unit
                &&& 2 * (tenths * unit - 10 * whole) == unit || 2 * (10 * whole - tenths * unit) == unit ==> tenths % 2
                    == 0
            },
{
    let whole = nearest_double(bytes as nat, 1);
    let tenths = round_even(10 * whole, unit);
    law_rounds_to_nearest(10 * whole, unit);
    assert(scaled(bytes, unit) == decimal(tenths / 10) + "."@ + decimal(tenths % 10));
}

/// A size is told in the greatest of its units that it reaches: gigabytes, megabytes or
/// kilobytes, of 1024 each, with one decimal place; else in bytes.
pub proof fn law_size_for_people(bytes: u64)
    ensures
        bytes < 1024 ==> human(bytes) == decimal(bytes as nat) + " B"@,
        1024 <= bytes < 1024 * 1024 ==> human(bytes) == scaled(bytes, 1024) + " KB"@,
        1024 * 1024 <= bytes < 1024 * 1024 * 1024 ==> human(bytes) == scaled(bytes, 1024 * 1024) + " MB"@,
        bytes >= 1024 * 1024 * 1024 ==> human(bytes) == scaled(bytes, 1024 * 1024 * 1024) + " GB"@,
{
}

/// A placeholder for a number gives way to it where there is one, and else stays.
pub proof fn law_number_filled_in(s: Seq<char>, key: Seq<char>, v: u32)
    ensures
        with_number(s, key, Some(v)) == replaced(s, key, decimal(v as nat)),
        with_number(s, key, None) == s,
{
}

/// A template without an opening brace is shown as it is, and an empty one is empty.
pub proof fn law_plain_template_stays(template: Seq<char>, agg: AggregateProgress, percentage: Seq<char>)
    requires
        forall|i: int| 0 <= i < template.len() ==> (#[trigger] template[i]) != '{',
    ensures
        filled(template, agg, percentage) == template,
        filled_or_empty(template, agg, percentage) == template,
{
    reveal_strlit("{percentage}");
    reveal_strlit("{totalSize}");
    reveal_strlit("{uploadedSize}");
    reveal_strlit("{totalTransfers}");
    reveal_strlit("{completedTransfers}");
    reveal_strlit("{totalFiles}");
    reveal_strlit("{completedFiles}");
    lemma_no_brace(template, "{percentage}"@, percentage);
    lemma_no_brace(template, "{totalSize}"@, human(agg.total_size));
    lemma_no_brace(template, "{uploadedSize}"@, human(agg.uploaded_size));
    if agg.total_transfers is Some {
        lemma_no_brace(template, "{totalTransfers}"@, decimal((agg.total_transfers->0) as nat));
    }
    if agg.completed_transfers is Some {
        lemma_no_brace(template, "{completedTransfers}"@, decimal((agg.completed_transfers->0) as nat));
    }
    lemma_no_brace(template, "{totalFiles}"@, decimal(agg.total_files as nat));
    lemma_no_brace(template, "{completedFiles}"@, decimal(agg.completed_files as nat));
    if template.len() == 0 {
        assert(template =~= Seq::<char>::empty());
    }
}

proof fn lemma_no_brace(s: Seq<char>, from: Seq<char>, to: Seq<char>)
    requires
        from.len() > 0,
        from[0] == '{',
        forall|i: int| 0 <= i < s.len() ==> (#[trigger] s[i]) != '{',
    ensures
        replaced(s, from, to) == s,
{
    if occurs_in(s, from) {
        let i = choose|i: int| occurs_at(s, from, i);
        law_occurs(s, from, i);
        assert(from[0] == s[i + 0]);
    }
    law_replaced_from_the_left(s, from, to, 0);
}

/// Each placeholder stands for its own figure, and they are filled in one after the other.
pub proof fn law_placeholders(template: Seq<char>, agg: AggregateProgress, percentage: Seq<char>)
    ensures
        ({
            let a = replaced(template, "{percentage}"@, percentage);
            let b = replaced(a, "{totalSize}"@, human(agg.total_size));
            let c = replaced(b, "{uploadedSize}"@, human(agg.uploaded_size));
            let d = match agg.total_transfers {
                Some(n) => replaced(c, "{totalTransfers}"@, decimal(n as nat)),
                None => c,
            };
            let e = match agg.completed_transfers {
                Some(n) => replaced(d, "{completedTransfers}"@, decimal(n as nat)),
                None => d,
            };
            let f = replaced(e, "{totalFiles}"@, decimal(agg.total_files as nat));
            let g = replaced(f, "{completedFiles}"@, decimal(agg.completed_files as nat));
            &&& filled(template, agg, percentage) == g
            &&& template.len() > 0 ==> filled_or_empty(template, agg, percentage) == g
            &&& template.len() == 0 ==> filled_or_empty(template, agg, percentage).len() == 0
        }),
{
}

/// The URL for a part is that of the last key that stands for it: nothing at first, and one
/// pair more counts for its own part only.
pub proof fn law_url_for_part(urls: Seq<(Seq<char>, Seq<char>)>, key: Seq<char>, url: Seq<char>, n: u32, m: Map<u32, String>)
    ensures
        url_for(Seq::empty(), n) is None,
        url_for(urls.push((key, url)), n) == (if parsed_u32(key) == Some(n) {
            Some(url)
        } else {
            url_for(urls, n)
        }),
        urls_by_part(m, urls) ==> (m.contains_key(n) <==> url_for(urls, n) is Some),
        urls_by_part(m, urls) && m.contains_key(n) ==> Some(m[n]@) == url_for(urls, n),
{
    assert(urls.push((key, url)).drop_last() =~= urls);
    if urls_by_part(m, urls) {
        let there = m.contains_key(n);
        match url_for(urls, n) {
            Some(u) => {
                assert(there && m[n]@ == u);
            },
            None => {
                assert(!there);
            },
        }
    }
}

/// Parts that are sorted by number are the same parts, each as often, with numbers that
/// never go down.
pub proof fn law_sorted_parts_are_the_same(r: Seq<(u32, Seq<char>)>, s: Seq<(u32, Seq<char>)>)
    requires
        sorted_by_number(r, s),
    ensures
        forall|i: int, j: int| 0 <= i < j < r.len() ==> (#[trigger] r[i]).0 <= (#[trigger] r[j]).0,
        r.to_multiset() == s.to_multiset(),
        r.len() == s.len(),
{
    broadcast use {vstd::multiset::group_multiset_axioms, vstd::seq_lib::group_to_multiset_ensures};

    assert forall|x: (u32, Seq<char>)| r.to_multiset().count(x) == s.to_multiset().count(x) by {
        lemma_count_numbered(r, x);
        lemma_count_numbered(s, x);
        assert(numbered(r, x.0) == numbered(s, x.0));
    }
    assert(r.to_multiset() =~= s.to_multiset());
    r.to_multiset_ensures();
    s.to_multiset_ensures();
}

proof fn lemma_count_numbered(s: Seq<(u32, Seq<char>)>, x: (u32, Seq<char>))
    ensures
        numbered(s, x.0).to_multiset().count(x) == s.to_multiset().count(x),
    decreases s.len(),
{
    broadcast use {vstd::multiset::group_multiset_axioms, vstd::seq_lib::group_to_multiset_ensures};

    reveal(Seq::filter);
    if s.len() > 0 {
        let front = s.drop_last();
        lemma_count_numbered(front, x);
        assert(s =~= front.push(s.last()));
        assert(s.to_multiset() =~= front.to_multiset().insert(s.last()));
        let kept = numbered(front, x.0);
        if s.last().0 == x.0 {
            assert(numbered(s, x.0) == kept.push(s.last()));
            assert(numbered(s, x.0).to_multiset() =~= kept.to_multiset().insert(s.last()));
        }
    }
}

/// The start call names the file, its hash and its size, whatever the caller's parameters
/// say; every other parameter goes along as it is.
pub proof fn law_start_call_fields(
    name: Seq<char>,
    h: Seq<char>,
    size: u64,
    params: Seq<(Seq<char>, Seq<char>)>,
    k: Seq<char>,
)
    requires
        unique(params),
    ensures
        lookup(start_fields(name, h, size, params), "fileName"@) == Some(name),
        lookup(start_fields(name, h, size, params), "fileHash"@) == Some(h),
        lookup(start_fields(name, h, size, params), "fileSize"@) == Some(decimal(size as nat)),
        k != "fileName"@ && k != "fileHash"@ && k != "fileSize"@ ==> lookup(start_fields(name, h, size, params), k)
            == lookup(params, k),
{
    reveal_strlit("fileName");
    reveal_strlit("fileHash");
    reveal_strlit("fileSize");
    assert("fileName"@[4] != "fileHash"@[4] && "fileName"@[4] != "fileSize"@[4] && "fileHash"@[4] != "fileSize"@[4]);
    let a = put(params, "fileName"@, name);
    let b = put(a, "fileHash"@, h);
    lemma_put(params, "fileName"@, name, k);
    lemma_put(params, "fileName"@, name, "fileName"@);
    lemma_put(a, "fileHash"@, h, k);
    lemma_put(a, "fileHash"@, h, "fileName"@);
    lemma_put(a, "fileHash"@, h, "fileHash"@);
    lemma_put(b, "fileSize"@, decimal(size as nat), k);
    lemma_put(b, "fileSize"@, decimal(size as nat), "fileName"@);
    lemma_put(b, "fileSize"@, decimal(size as nat), "fileHash"@);
    lemma_put(b, "fileSize"@, decimal(size as nat), "fileSize"@);
}

/// The request to complete an upload is an object with its parts, each with its ETag and its
/// number under the keys that the server expects.
pub proof fn law_completing_body(parts: Seq<(u32, Seq<char>)>, v: Seq<CompletePart>, f: Seq<(String, String)>, i: int)
    ensures
        parts_json(parts) == json_object(Seq::empty(), None, Some(("parts"@, "ETag"@, "PartNumber"@, parts))),
        complete_parts(v).len() == v.len(),
        0 <= i < v.len() ==> complete_parts(v)[i] == (v[i].part_number, v[i].etag@),
        fields_of(f).len() == f.len(),
        0 <= i < f.len() ==> fields_of(f)[i] == (f[i].0@, f[i].1@),
        list_opt(None) is None,
        table_opt(None) is None,
{
}

/// An optional list or table of a body is taken over as it is.
pub proof fn law_optional_fields(key: &str, list: &[u32], a: &str, b: &str, parts: &Vec<CompletePart>)
    ensures
        list_opt(Some((key, list))) == Some((key@, list@)),
        table_opt(Some((key, a, b, parts))) == Some((key@, a@, b@, complete_parts(parts@))),
{
}

/// The errors of a completing call that a pause may cure: time-outs and lost connections, in
/// whatever case they are written.
pub proof fn law_curable_errors(error: Seq<char>)
    ensures
        retryable(error) <==> occurs_in(lowered(error), "timed out"@) || occurs_in(lowered(error), "timeout"@)
            || occurs_in(lowered(error), "request is not finished within timeout"@) || occurs_in(
            lowered(error),
            "network connection was lost"@,
        ) || occurs_in(lowered(error), "nsurlerrordomain code=-1001"@) || occurs_in(
            lowered(error),
            "nsurlerrordomain code=-1005"@,
        ),
{
}

/// Nothing is configured where all three endpoints are empty.
pub proof fn law_unset(c: UploaderConfig)
    ensures
        unset(c) <==> c.start_upload_api@.len() == 0 && c.get_upload_urls_api@.len() == 0 && c.complete_api@.len() == 0,
{
}

/// What is told where a file is there already, and where local files are missing.
pub proof fn law_refusals_are_told(h: Seq<char>, how: Seq<char>, missing: nat)
    ensures
        duplicate(h, how) == "DUPLICATE_FILE: file with hash "@ + h + " is already "@ + how + " in this session"@,
        not_provided(missing) == "Cannot resume: "@ + decimal(missing)
            + " file(s) not yet re-provided. Call uploadFile() for each missing file first."@,
{
}

/// The names of the states towards the caller.
pub proof fn law_state_names()
    ensures
        UploadState::NotStarted.name() == "NOT_STARTED"@,
        UploadState::Initialized.name() == "INITIALIZED"@,
        UploadState::Running.name() == "RUNNING"@,
        UploadState::Paused.name() == "PAUSED"@,
        UploadState::Completed.name() == "COMPLETED"@,
        UploadState::Failed.name() == "FAILED"@,
        UploadState::Cancelled.name() == "CANCELLED"@,
        GlobalUploaderState::NotStarted.name() == "NOT_STARTED"@,
        GlobalUploaderState::RunningInBg.name() == "RUNNING_IN_BG"@,
        GlobalUploaderState::Running.name() == "RUNNING"@,
        GlobalUploaderState::Paused.name() == "PAUSED"@,
        GlobalUploaderState::Completed.name() == "COMPLETED"@,
        GlobalUploaderState::Failed.name() == "FAILED"@,
{
}

/// Rows of texts, reports, notices and changes are taken over one for one, in their order.
pub proof fn law_rows_are_taken_over(
    v: Seq<String>,
    f: Seq<FileProgress>,
    n: Seq<ProgressNotice>,
    c: Seq<(String, UploadState)>,
    q: Seq<(String, u64)>,
    i: int,
)
    ensures
        texts(v).len() == v.len() && queued(v).len() == v.len(),
        0 <= i < v.len() ==> texts(v)[i] == v[i]@ && queued(v)[i] == v[i]@,
        reports(f).len() == f.len(),
        0 <= i < f.len() ==> reports(f)[i] == f[i]@,
        notices(n).len() == n.len(),
        0 <= i < n.len() ==> notices(n)[i] == n[i]@,
        changes_of(c).len() == c.len(),
        0 <= i < c.len() ==> changes_of(c)[i] == (c[i].0@, c[i].1),
        entries(q).len() == q.len(),
        0 <= i < q.len() ==> entries(q)[i] == (q[i].0@, q[i].1),
{
}

/// An optional text is there where it is given, and is the one given.
pub proof fn law_optional_texts(s: String, t: &str)
    ensures
        text_opt(Some(s)) == Some(s@),
        text_opt(None) is None,
        str_opt(Some(t)) == Some(t@),
        str_opt(None) is None,
{
}

} // verus!
