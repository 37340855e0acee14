//! Texts for the user: sizes and notification templates.

use crate::report::AggregateProgress;
use crate::session::Session;
use crate::text::{decimal, decimal_text, replace_text, replaced, same_text};
use vstd::prelude::*;
use vstd::string::*;

verus! {

/// `n / d` rounded to the nearest whole number, and to the even one of two.
pub open spec fn round_even(n: nat, d: nat) -> nat {
    let q = n / d;
    let r = n % d;
    if 2 * r > d || (2 * r == d && q % 2 == 1) {
        q + 1
    } else {
        q
    }
}

/// The multiple of a power of two, `step` or above, that stands for `n` in 53 bits:
/// what a double-precision number keeps of it.
pub open spec fn nearest_double(n: nat, step: nat) -> nat
    decreases n - step,
{
    if step == 0 || n < step * 0x20_0000_0000_0000 {
        round_even(n, step) * step
    } else {
        nearest_double(n, 2 * step)
    }
}

/// `bytes` in multiples of `unit`, with one decimal place.
pub open spec fn scaled(bytes: u64, unit: nat) -> Seq<char> {
    let tenths = round_even(10 * nearest_double(bytes as nat, 1), unit);
    decimal(tenths / 10) + "."@ + decimal(tenths % 10)
}

/// A size as the user reads it.
pub open spec fn human(bytes: u64) -> Seq<char> {
    if bytes >= 0x4000_0000 {
        scaled(bytes, 0x4000_0000) + " GB"@
    } else if bytes >= 0x10_0000 {
        scaled(bytes, 0x10_0000) + " MB"@
    } else if bytes >= 0x400 {
        scaled(bytes, 0x400) + " KB"@
    } else {
        decimal(bytes as nat) + " B"@
    }
}

/// `s` with `key` replaced by the number, where there is one.
pub open spec fn with_number(s: Seq<char>, key: Seq<char>, n: Option<u32>) -> Seq<char> {
    match n {
        Some(v) => replaced(s, key, decimal(v as nat)),
        None => s,
    }
}

/// `template` with its placeholders filled in, one after the other.
pub open spec fn filled(
    template: Seq<char>,
    agg: AggregateProgress,
    percentage: Seq<char>,
) -> Seq<char> {
    let s = replaced(template, "{percentage}"@, percentage);
    let s = replaced(s, "{totalSize}"@, human(agg.total_size));
    let s = replaced(s, "{uploadedSize}"@, human(agg.uploaded_size));
    let s = with_number(s, "{totalTransfers}"@, agg.total_transfers);
    let s = with_number(s, "{completedTransfers}"@, agg.completed_transfers);
    let s = replaced(s, "{totalFiles}"@, decimal(agg.total_files as nat));
    replaced(s, "{completedFiles}"@, decimal(agg.completed_files as nat))
}

fn round_half_even(n: u128, d: u128) -> (r: u128)
    requires
        0 < d <= 0x8000_0000_0000_0000,
        n < 0x1_0000_0000_0000_0000_0000,
    ensures
        r == round_even(n as nat, d as nat),
        r <= n / d + 1,
{
    let q: u128 = n / d;
    let r: u128 = n % d;
    assert(q <= n) by (nonlinear_arith)
        requires
            q == n / d,
            d > 0,
    ;
    if 2 * r > d || (2 * r == d && q % 2 == 1) {
        q + 1
    } else {
        q
    }
}

fn to_double(n: u64) -> (r: u128)
    ensures
        r == nearest_double(n as nat, 1),
        r <= 0x1_0000_0000_0000_1000,
{
    let mut step: u128 = 1;
    while n as u128 >= step * 0x20_0000_0000_0000
        invariant
            1 <= step < 0x1000,
            nearest_double(n as nat, 1) == nearest_double(n as nat, step as nat),
        decreases 0x1000 - step,
    {
        step = 2 * step;
    }
    let q: u128 = round_half_even(n as u128, step);
    assert(q * step <= n + step) by (nonlinear_arith)
        requires
            q <= n as int / step as int + 1,
            1 <= step,
            0 <= n,
    ;
    q * step
}

fn scaled_text(bytes: u64, unit: u64) -> (r: String)
    requires
        0x400 <= unit <= 0x4000_0000,
    ensures
        r@ == scaled(bytes, unit as nat),
{
    let n: u128 = 10 * to_double(bytes);
    let tenths: u128 = round_half_even(n, unit as u128);
    assert(tenths <= 0x1_0000_0000_0000_1000 * 10 / 0x400 + 1) by (nonlinear_arith)
        requires
            tenths <= n / unit as u128 + 1,
            n <= 10 * 0x1_0000_0000_0000_1000,
            unit >= 0x400,
    ;
    let mut s = decimal_text((tenths / 10) as u64);
    s.append(".");
    s.append(decimal_text((tenths % 10) as u64).as_str());
    s
}

/// A size as the user reads it.
pub fn human_bytes(bytes: u64) -> (r: String)
    ensures
        r@ == human(bytes),
{
    if bytes >= 0x4000_0000 {
        let mut s = scaled_text(bytes, 0x4000_0000);
        s.append(" GB");
        s
    } else if bytes >= 0x10_0000 {
        let mut s = scaled_text(bytes, 0x10_0000);
        s.append(" MB");
        s
    } else if bytes >= 0x400 {
        let mut s = scaled_text(bytes, 0x400);
        s.append(" KB");
        s
    } else {
        let mut s = decimal_text(bytes);
        s.append(" B");
        s
    }
}

/// Fills in the placeholders of a template. `percentage` is the text of
/// `agg.percentage`, rounded to a whole number and followed by a percent sign.
pub fn format_template(template: &str, agg: &AggregateProgress, percentage: &str) -> (r: String)
    ensures
        r@ == filled(template@, *agg, percentage@),
{
    let mut s = replace_text(template, "{percentage}", percentage);
    s = replace_text(s.as_str(), "{totalSize}", human_bytes(agg.total_size).as_str());
    s = replace_text(s.as_str(), "{uploadedSize}", human_bytes(agg.uploaded_size).as_str());
    if let Some(t) = agg.total_transfers {
        s = replace_text(s.as_str(), "{totalTransfers}", decimal_text(t as u64).as_str());
    }
    if let Some(c) = agg.completed_transfers {
        s = replace_text(s.as_str(), "{completedTransfers}", decimal_text(c as u64).as_str());
    }
    s = replace_text(s.as_str(), "{totalFiles}", decimal_text(agg.total_files as u64).as_str());
    replace_text(s.as_str(), "{completedFiles}", decimal_text(agg.completed_files as u64).as_str())
}

/// `template` with its placeholders filled in; an empty one stays empty.
pub open spec fn filled_or_empty(
    template: Seq<char>,
    agg: AggregateProgress,
    percentage: Seq<char>,
) -> Seq<char> {
    if template.len() == 0 {
        Seq::empty()
    } else {
        filled(template, agg, percentage)
    }
}

fn is_empty_text(s: &str) -> (r: bool)
    ensures
        r == (s@.len() == 0),
{
    proof {
        reveal_strlit("");
        assert(s@.len() == 0 ==> s@ =~= ""@);
    }
    same_text(s, "")
}

/// Fills a template in with a live report; an empty one stays empty.
pub fn format_with_live_aggregate(template: &str, agg: &AggregateProgress, percentage: &str) -> (r: String)
    ensures
        r@ == filled_or_empty(template@, *agg, percentage@),
{
    if is_empty_text(template) {
        return String::new();
    }
    format_template(template, agg, percentage)
}

/// Fills a template in with the report on the session; an empty one stays empty.
fn format_report(session: &Session, template: &String, percentage: &str) -> (r: String)
    requires
        session.wf(),
        template@.len() > 0 ==> session@.countable(None),
    ensures
        r@ == filled_or_empty(template@, session@.aggregate(None), percentage@),
{
    if is_empty_text(template.as_str()) {
        return String::new();
    }
    format_template(template.as_str(), &session.get_aggregate_progress(None), percentage)
}

impl Session {
    /// The title of the notification. `percentage` is the text of the percentage of the
    /// report on the session.
    pub fn format_title(&self, percentage: &str) -> (r: String)
        requires
            self.wf(),
            self@.title_template.len() > 0 ==> self@.countable(None),
        ensures
            r@ == filled_or_empty(self@.title_template, self@.aggregate(None), percentage@),
    {
        format_report(self, &self.title_template, percentage)
    }

    /// The subtitle of the notification. `percentage` is the text of the percentage of the
    /// report on the session.
    pub fn format_subtitle(&self, percentage: &str) -> (r: String)
        requires
            self.wf(),
            self@.subtitle_template.len() > 0 ==> self@.countable(None),
        ensures
            r@ == filled_or_empty(self@.subtitle_template, self@.aggregate(None), percentage@),
    {
        format_report(self, &self.subtitle_template, percentage)
    }
}

} // verus!
