//! The report of a fakeclient: JSON, one event per line. A line that is not
//! JSON is no event.
use super::legacy::{
    event_name, named, text_views, EventName, LegacyEvent, MSG_UPDATE_MOVEMENT,
};
use crate::decimal::{append_decimal, decimal};
use vstd::prelude::*;

verus! {

/// Whether a line is JSON.
pub uninterp spec fn json_line(line: Seq<char>) -> bool;

/// The text that a JSON pointer finds in a line.
pub uninterp spec fn json_text(line: Seq<char>, pointer: Seq<char>) -> Option<Seq<char>>;

/// The integer that a JSON pointer finds in a line.
pub uninterp spec fn json_int(line: Seq<char>, pointer: Seq<char>) -> Option<i64>;

/// The number that a JSON pointer finds in a line, as the bit pattern of a
/// double.
pub uninterp spec fn json_number(line: Seq<char>, pointer: Seq<char>) -> Option<u64>;

/// The length of the array that a JSON pointer finds in a line.
pub uninterp spec fn json_count(line: Seq<char>, pointer: Seq<char>) -> Option<usize>;

/// A line of JSON written out again in its compact form.
pub uninterp spec fn json_compact(line: Seq<char>) -> Option<Seq<char>>;

/// `serde_json::from_str` into a `Value`: whether the line is JSON.
#[verifier::external_body]
fn is_json(line: &str) -> (r: bool)
    ensures
        r == json_line(line@),
{
    serde_json::from_str::<serde_json::Value>(line).is_ok()
}

/// `serde_json::Value::pointer` and `as_str` on the value of a line: the text
/// there, or `None` where there is none or the line is not JSON.
#[verifier::external_body]
fn text_at(line: &str, pointer: &str) -> (r: Option<String>)
    ensures
        match r {
            Some(s) => json_text(line@, pointer@) == Some(s@),
            None => json_text(line@, pointer@) is None,
        },
{
    let value: serde_json::Value = serde_json::from_str(line).ok()?;
    Some(value.pointer(pointer)?.as_str()?.to_owned())
}

/// `serde_json::Value::pointer` and `as_i64` on the value of a line: the
/// integer there, or `None` where there is none or the line is not JSON.
#[verifier::external_body]
fn int_at(line: &str, pointer: &str) -> (r: Option<i64>)
    ensures
        r == json_int(line@, pointer@),
{
    let value: serde_json::Value = serde_json::from_str(line).ok()?;
    value.pointer(pointer)?.as_i64()
}

/// `serde_json::Value::pointer` and `as_f64` on the value of a line: the bit
/// pattern of the number there, or `None` where there is none or the line is not
/// JSON.
#[verifier::external_body]
fn number_at(line: &str, pointer: &str) -> (r: Option<u64>)
    ensures
        r == json_number(line@, pointer@),
{
    let value: serde_json::Value = serde_json::from_str(line).ok()?;
    Some(value.pointer(pointer)?.as_f64()?.to_bits())
}

/// `serde_json::Value::pointer` and `as_array` on the value of a line: the
/// length of the array there, or `None` where there is none or the line is not
/// JSON.
#[verifier::external_body]
fn count_at(line: &str, pointer: &str) -> (r: Option<usize>)
    ensures
        r == json_count(line@, pointer@),
{
    let value: serde_json::Value = serde_json::from_str(line).ok()?;
    Some(value.pointer(pointer)?.as_array()?.len())
}

/// `serde_json::Value::to_string` of the value of a line, or `None` where the
/// line is not JSON.
#[verifier::external_body]
fn compact(line: &str) -> (r: Option<String>)
    ensures
        match r {
            Some(s) => json_compact(line@) == Some(s@),
            None => json_compact(line@) is None,
        },
        r is Some <==> json_line(line@),
{
    let value: serde_json::Value = serde_json::from_str(line).ok()?;
    Some(value.to_string())
}

/// One event of a fakeclient's report.
#[derive(Debug)]
pub struct Report {
    /// What it is about.
    pub name: EventName,
    /// The type number of its message, where it has one.
    pub t: Option<i64>,
    /// The numbers of its message's position, as bit patterns of doubles.
    pub pos: Vec<u64>,
}

/// What a [`Report`] says.
#[verifier::ext_equal]
pub struct ReportView {
    pub name: EventName,
    pub t: Option<i64>,
    pub pos: Seq<u64>,
}

impl View for Report {
    type V = ReportView;

    open spec fn view(&self) -> ReportView {
        ReportView { name: self.name, t: self.t, pos: self.pos@ }
    }
}

pub open spec fn report_views(list: Seq<Report>) -> Seq<ReportView> {
    Seq::new(list.len(), |i: int| list[i]@)
}

/// The numbers among the first `n` elements of a line's position.
pub open spec fn numbers_upto(line: Seq<char>, n: nat) -> Seq<u64>
    decreases n,
{
    if n == 0 {
        seq![]
    } else {
        let before = numbers_upto(line, (n - 1) as nat);
        match json_number(line, "/msg/data/pos/"@ + decimal((n - 1) as nat)) {
            Some(bits) => before.push(bits),
            None => before,
        }
    }
}

/// The numbers of a line's position; none where it has no position.
pub open spec fn position_of(line: Seq<char>) -> Seq<u64> {
    match json_count(line, "/msg/data/pos"@) {
        Some(n) => numbers_upto(line, n as nat),
        None => seq![],
    }
}

/// The event in a line of JSON.
pub open spec fn report_of(line: Seq<char>) -> ReportView {
    ReportView {
        name: match json_text(line, "/event"@) {
            Some(name) => named(name),
            None => EventName::Other,
        },
        t: json_int(line, "/msg/t"@),
        pos: position_of(line),
    }
}

/// The events in the lines that are JSON, in order.
pub open spec fn reports_of(lines: Seq<Seq<char>>) -> Seq<ReportView>
    decreases lines.len(),
{
    if lines.len() == 0 {
        seq![]
    } else {
        let before = reports_of(lines.drop_last());
        if json_line(lines.last()) {
            before.push(report_of(lines.last()))
        } else {
            before
        }
    }
}

fn position(line: &str) -> (r: Vec<u64>)
    ensures
        r@ == position_of(line@),
{
    let mut numbers: Vec<u64> = Vec::new();
    let n: usize = match count_at(line, "/msg/data/pos") {
        Some(n) => n,
        None => {
            return numbers;
        },
    };
    let mut i: usize = 0;
    while i < n
        invariant
            i <= n,
            numbers@ == numbers_upto(line@, i as nat),
        decreases n - i,
    {
        let mut pointer = "/msg/data/pos/".to_owned();
        append_decimal(&mut pointer, i as u64);
        if let Some(bits) = number_at(line, pointer.as_str()) {
            numbers.push(bits);
        }
        i = i + 1;
    }
    numbers
}

/// The event in a line of a report, if the line is JSON.
pub fn report(line: &str) -> (r: Option<Report>)
    ensures
        match r {
            Some(e) => json_line(line@) && e@ == report_of(line@),
            None => !json_line(line@),
        },
{
    if !is_json(line) {
        return None;
    }
    let name = match text_at(line, "/event") {
        Some(name) => event_name(name.as_str()),
        None => EventName::Other,
    };
    let e = Report { name, t: int_at(line, "/msg/t"), pos: position(line) };
    Some(e)
}

/// The events in the lines of a report that are JSON, in order.
pub fn reports(lines: &Vec<String>) -> (r: Vec<Report>)
    ensures
        report_views(r@) == reports_of(text_views(lines@)),
{
    let mut list: Vec<Report> = Vec::new();
    let mut i: usize = 0;
    let ghost all = text_views(lines@);
    proof {
        assert(all.take(0) =~= seq![]);
        assert(report_views(list@) =~= seq![]);
    }
    while i < lines.len()
        invariant
            i <= lines@.len(),
            all == text_views(lines@),
            report_views(list@) == reports_of(all.take(i as int)),
        decreases lines@.len() - i,
    {
        let ghost before = list@;
        if let Some(e) = report(lines[i].as_str()) {
            let ghost view = e@;
            list.push(e);
            proof {
                assert(report_views(list@) =~= report_views(before).push(view));
            }
        }
        i = i + 1;
        proof {
            assert(all.take(i as int).drop_last() =~= all.take(i - 1));
            assert(all.take(i as int).last() == lines@[i - 1]@);
        }
    }
    proof {
        assert(all.take(i as int) =~= all);
    }
    list
}

/// The last of the first `n` lines that is JSON, in its compact form; empty
/// where none is.
pub open spec fn last_event(lines: Seq<Seq<char>>, n: int) -> Seq<char>
    decreases n,
{
    if n <= 0 {
        seq![]
    } else {
        match json_compact(lines[n - 1]) {
            Some(text) => text,
            None => last_event(lines, n - 1),
        }
    }
}

/// The last event of a report as it was written, in compact form.
pub fn last_line(lines: &Vec<String>) -> (r: String)
    ensures
        r@ == last_event(text_views(lines@), lines@.len() as int),
{
    let mut n: usize = lines.len();
    let ghost all = text_views(lines@);
    while n > 0
        invariant
            n <= lines@.len(),
            all == text_views(lines@),
            last_event(all, lines@.len() as int) == last_event(all, n as int),
        decreases n,
    {
        proof {
            assert(all[n - 1] == lines@[n - 1]@);
        }
        if let Some(text) = compact(lines[n - 1].as_str()) {
            return text;
        }
        n = n - 1;
    }
    String::new()
}

impl ReportView {
    /// A movement update that the client sent.
    pub open spec fn is_move_sent(self) -> bool {
        self.name == EventName::Sent && self.t == Some(MSG_UPDATE_MOVEMENT)
    }
}

/// Whether two reports name the same place: both have three coordinates, and
/// they are close.
pub open spec fn same_place(a: ReportView, b: ReportView, close: bool) -> bool {
    a.pos.len() == 3 && b.pos.len() == 3 && close
}

/// Closeness as it was measured, for reports `i` and `j`.
pub open spec fn measured(close: Seq<Vec<bool>>, i: int, j: int) -> bool {
    i < close.len() && j < close[i]@.len() && close[i]@[j]
}

/// For each movement update sent among the first `j` reports, in order, whether
/// it names the place of report `i`.
pub open spec fn near_flags(
    reports: Seq<ReportView>,
    close: Seq<Vec<bool>>,
    i: int,
    j: int,
) -> Seq<bool>
    decreases j,
{
    if j <= 0 {
        seq![]
    } else {
        let before = near_flags(reports, close, i, j - 1);
        if reports[j - 1].is_move_sent() {
            before.push(same_place(reports[i], reports[j - 1], measured(close, i, j - 1)))
        } else {
            before
        }
    }
}

/// The events of a report for the matching of moves. `close[i][j]` says whether
/// the positions of reports `i` and `j`, an earlier one, are within half a unit
/// of each other on every axis.
pub fn legacy_events(list: &Vec<Report>, close: &Vec<Vec<bool>>) -> (r: Vec<LegacyEvent>)
    ensures
        r@.len() == list@.len(),
        forall|i: int|
            0 <= i < list@.len() ==> {
                &&& (#[trigger] r@[i]).name == list@[i].name
                &&& r@[i].t == list@[i].t
                &&& r@[i].near@ == near_flags(report_views(list@), close@, i, i)
            },
{
    let mut events: Vec<LegacyEvent> = Vec::new();
    let mut i: usize = 0;
    while i < list.len()
        invariant
            i <= list@.len(),
            events@.len() == i,
            forall|k: int|
                0 <= k < i ==> {
                    &&& (#[trigger] events@[k]).name == list@[k].name
                    &&& events@[k].t == list@[k].t
                    &&& events@[k].near@ == near_flags(report_views(list@), close@, k, k)
                },
        decreases list@.len() - i,
    {
        let near = near_earlier(list, close, i);
        events.push(LegacyEvent { name: list[i].name, t: list[i].t, near });
        i = i + 1;
    }
    events
}

fn near_earlier(list: &Vec<Report>, close: &Vec<Vec<bool>>, i: usize) -> (r: Vec<bool>)
    requires
        i < list@.len(),
    ensures
        r@ == near_flags(report_views(list@), close@, i as int, i as int),
{
    let mut near: Vec<bool> = Vec::new();
    let mut j: usize = 0;
    while j < i
        invariant
            j <= i,
            i < list@.len(),
            near@ == near_flags(report_views(list@), close@, i as int, j as int),
        decreases i - j,
    {
        if list[j].name == EventName::Sent && list[j].t == Some(MSG_UPDATE_MOVEMENT) {
            let is_close = i < close.len() && j < close[i].len() && close[i][j];
            near.push(list[i].pos.len() == 3 && list[j].pos.len() == 3 && is_close);
        }
        j = j + 1;
    }
    near
}

/// Every line that is JSON makes one event, in order; every other line makes
/// none.
pub proof fn law_lines_make_events(lines: Seq<Seq<char>>, line: Seq<char>)
    ensures
        reports_of(seq![]) == Seq::<ReportView>::empty(),
        json_line(line) ==> reports_of(lines.push(line)) == reports_of(lines).push(
            report_of(line),
        ),
        !json_line(line) ==> reports_of(lines.push(line)) == reports_of(lines),
{
    assert(lines.push(line).drop_last() =~= lines);
}

/// An event's name stands under `event`, its type under `msg.t` and its position
/// under `msg.data.pos`; what is no name of an event is some other event.
pub proof fn law_fields_stand_in_their_places(line: Seq<char>)
    ensures
        report_of(line).name == EventName::Actor <==> json_text(line, "/event"@) == Some("actor"@),
        report_of(line).name == EventName::Sent <==> json_text(line, "/event"@) == Some("sent"@),
        report_of(line).name == EventName::Message <==> json_text(line, "/event"@) == Some(
            "message"@,
        ),
        report_of(line).t == json_int(line, "/msg/t"@),
        json_count(line, "/msg/data/pos"@) is None ==> report_of(line).pos.len() == 0,
        json_count(line, "/msg/data/pos"@) matches Some(n) ==> report_of(line).pos == numbers_upto(
            line,
            n as nat,
        ) && report_of(line).pos.len() <= n,
{
    reveal_strlit("actor");
    reveal_strlit("sent");
    reveal_strlit("message");
    assert("actor"@.len() == 5);
    assert("sent"@.len() == 4);
    assert("message"@.len() == 7);
    if let Some(n) = json_count(line, "/msg/data/pos"@) {
        lemma_numbers_len(line, n as nat);
    }
}

proof fn lemma_numbers_len(line: Seq<char>, n: nat)
    ensures
        numbers_upto(line, n).len() <= n,
    decreases n,
{
    if n > 0 {
        lemma_numbers_len(line, (n - 1) as nat);
    }
}

/// A position whose elements are all numbers is those numbers, in order.
pub proof fn law_positions_are_read_in_order(line: Seq<char>, n: nat, k: int)
    requires
        forall|i: int|
            0 <= i < n ==> #[trigger] json_number(
                line,
                "/msg/data/pos/"@ + decimal(i as nat),
            ) is Some,
        0 <= k < n,
    ensures
        numbers_upto(line, n).len() == n,
        Some(numbers_upto(line, n)[k]) == json_number(line, "/msg/data/pos/"@ + decimal(k as nat)),
    decreases n,
{
    assert(json_number(line, "/msg/data/pos/"@ + decimal((n - 1) as nat)) is Some);
    if n > 1 {
        law_positions_are_read_in_order(
            line,
            (n - 1) as nat,
            if k < n - 1 {
                k
            } else {
                0
            },
        );
    } else {
        assert(numbers_upto(line, 0).len() == 0);
    }
}

/// The last event is told: the last line that is JSON, whatever comes after it
/// that is not.
pub proof fn law_the_last_event_is_told(lines: Seq<Seq<char>>, n: int, k: int)
    requires
        0 <= k < n <= lines.len(),
        json_compact(lines[k]) is Some,
        forall|i: int| k < i < n ==> json_compact(#[trigger] lines[i]) is None,
    ensures
        Some(last_event(lines, n)) == json_compact(lines[k]),
    decreases n,
{
    if k < n - 1 {
        assert(json_compact(lines[n - 1]) is None);
        law_the_last_event_is_told(lines, n - 1, k);
    }
}

/// There is one flag for each movement update that the client sent before an
/// event, in order: whether both have three coordinates and were measured close.
pub proof fn law_flags_are_of_sent_updates(
    reports: Seq<ReportView>,
    close: Seq<Vec<bool>>,
    i: int,
    j: int,
)
    requires
        0 <= j,
    ensures
        near_flags(reports, close, i, 0).len() == 0,
        ({
            let before = near_flags(reports, close, i, j);
            let after = near_flags(reports, close, i, j + 1);
            let sent = reports[j].name == EventName::Sent && reports[j].t == Some(2i64);
            &&& !sent ==> after == before
            &&& sent ==> after == before.push(
                reports[i].pos.len() == 3 && reports[j].pos.len() == 3 && i < close.len() && j
                    < close[i]@.len() && close[i]@[j],
            )
        }),
{
}

} // verus!
