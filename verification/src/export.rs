//! Exports: CSV cells safe for spreadsheets, the iCalendar feed of due
//! dates and study blocks, and the choices of export format.
use vstd::prelude::*;
use crate::num::{tdiv, trem};
use crate::text::{
    byte_prefix, chars_of, cut_ok, cut_ok_exec, first_ten_bytes, is_whitespace, is_ws, message, pad2, parse_i64, parsed_i64, push_pad2,
    push_signed, push_str, signed_decimal, str_eq, string_of, trim_start,
};

verus! {

/// `s` with each double quote doubled.
pub open spec fn doubled_quotes(s: Seq<char>) -> Seq<char>
    decreases s.len(),
{
    if s.len() == 0 {
        Seq::empty()
    } else {
        doubled_quotes(s.drop_last()) + if s.last() == '"' { seq!['"', '"'] } else { seq![s.last()] }
    }
}

/// A spreadsheet could read the text as a formula: after leading
/// whitespace it starts with '=', '+', '-' or '@', or it starts with a
/// tab, carriage return or line feed.
pub open spec fn formula_like(v: Seq<char>) -> bool {
    let t = trim_start(v);
    ||| t.len() > 0 && (t[0] == '=' || t[0] == '+' || t[0] == '-' || t[0] == '@')
    ||| v.len() > 0 && (v[0] == '\t' || v[0] == '\r' || v[0] == '\n')
}

/// A CSV cell: quotes doubled, a leading apostrophe where the text could
/// be read as a formula, all in double quotes.
pub open spec fn csv_cell(s: Seq<char>) -> Seq<char> {
    let v = doubled_quotes(s);
    let w = if formula_like(v) { seq!['\''] + v } else { v };
    seq!['"'] + w + seq!['"']
}

fn double_quotes(s: &Vec<char>) -> (r: Vec<char>)
    ensures
        r@ == doubled_quotes(s@),
{
    let mut out: Vec<char> = Vec::new();
    let mut i: usize = 0;
    while i < s.len()
        invariant
            i <= s.len(),
            out@ == doubled_quotes(s@.take(i as int)),
        decreases s.len() - i,
    {
        assert(s@.take(i + 1).drop_last() =~= s@.take(i as int));
        let c = s[i];
        let ghost before = out@;
        if c == '"' {
            out.push('"');
            out.push('"');
            assert(out@ =~= before + seq!['"', '"']);
        } else {
            out.push(c);
            assert(out@ =~= before + seq![c]);
        }
        i += 1;
    }
    assert(s@.take(s.len() as int) =~= s@);
    out
}

proof fn lemma_trim_start_skip(s: Seq<char>, i: int)
    requires
        0 <= i <= s.len(),
        forall|k: int| 0 <= k < i ==> is_ws(s[k]),
    ensures
        trim_start(s) == trim_start(s.subrange(i, s.len() as int)),
    decreases i,
{
    if i > 0 {
        assert(s.drop_first().subrange(i - 1, s.len() - 1) =~= s.subrange(i, s.len() as int));
        lemma_trim_start_skip(s.drop_first(), i - 1);
    } else {
        assert(s.subrange(0, s.len() as int) =~= s);
    }
}

fn looks_like_formula(v: &Vec<char>) -> (r: bool)
    ensures
        r == formula_like(v@),
{
    let mut i: usize = 0;
    while i < v.len() && is_whitespace(v[i])
        invariant
            i <= v.len(),
            forall|k: int| 0 <= k < i ==> is_ws(v@[k]),
        decreases v.len() - i,
    {
        i += 1;
    }
    proof {
        lemma_trim_start_skip(v@, i as int);
        let rest = v@.subrange(i as int, v.len() as int);
        if i < v.len() {
            assert(rest[0] == v@[i as int]);
        }
    }
    let lead = i < v.len() && (v[i] == '=' || v[i] == '+' || v[i] == '-' || v[i] == '@');
    let control = v.len() > 0 && (v[0] == '\t' || v[0] == '\r' || v[0] == '\n');
    lead || control
}

/// A text as a safe CSV cell.
pub fn safe(value: String) -> (r: String)
    ensures
        r@ == csv_cell(value@),
{
    let cs = chars_of(value.as_str());
    let v = double_quotes(&cs);
    let formula = looks_like_formula(&v);
    let mut out: Vec<char> = Vec::new();
    out.push('"');
    if formula {
        out.push('\'');
    }
    let ghost before = out@;
    let mut i: usize = 0;
    while i < v.len()
        invariant
            i <= v.len(),
            out@ == before + v@.take(i as int),
        decreases v.len() - i,
    {
        out.push(v[i]);
        assert(out@ =~= before + v@.take(i + 1));
        i += 1;
    }
    out.push('"');
    assert(v@.take(v.len() as int) =~= v@);
    let r = string_of(out.as_slice());
    assert(r@ =~= csv_cell(value@));
    r
}

/// Law: whatever the text, a spreadsheet does not read the cell's content
/// (between its enclosing quotes) as a formula.
pub proof fn csv_cell_is_never_a_formula(s: Seq<char>)
    ensures
        csv_cell(s).len() >= 2,
        csv_cell(s)[0] == '"',
        csv_cell(s).last() == '"',
        !formula_like(csv_cell(s).subrange(1, csv_cell(s).len() - 1)),
{
    let v = doubled_quotes(s);
    if formula_like(v) {
        let w = seq!['\''] + v;
        assert(csv_cell(s).subrange(1, csv_cell(s).len() - 1) =~= w);
        assert(!is_ws(w[0]));
        assert(trim_start(w) == w);
    } else {
        assert(csv_cell(s).subrange(1, csv_cell(s).len() - 1) =~= v);
    }
}

/// The escaped form of one character in iCalendar text (RFC 5545 §3.3.11).
pub open spec fn ics_char(c: char) -> Seq<char> {
    if c == '\\' {
        seq!['\\', '\\']
    } else if c == ',' {
        seq!['\\', ',']
    } else if c == ';' {
        seq!['\\', ';']
    } else if c == '\n' {
        seq!['\\', 'n']
    } else {
        seq![c]
    }
}

/// iCalendar text with backslash, comma, semicolon and newline escaped.
pub open spec fn ics_text(s: Seq<char>) -> Seq<char>
    decreases s.len(),
{
    if s.len() == 0 {
        Seq::empty()
    } else {
        ics_text(s.drop_last()) + ics_char(s.last())
    }
}

/// Reads iCalendar escaped text back: a backslash and `n` give a newline,
/// a backslash and any other character give that character, and every other
/// character stands for itself.
pub open spec fn ics_unescape(t: Seq<char>) -> Seq<char>
    decreases t.len(),
{
    if t.len() == 0 {
        Seq::empty()
    } else if t[0] == '\\' && t.len() >= 2 {
        seq![if t[1] == 'n' { '\n' } else { t[1] }] + ics_unescape(t.skip(2))
    } else {
        seq![t[0]] + ics_unescape(t.skip(1))
    }
}

proof fn lemma_ics_text_front(s: Seq<char>)
    requires
        s.len() > 0,
    ensures
        ics_text(s) == ics_char(s[0]) + ics_text(s.drop_first()),
    decreases s.len(),
{
    if s.len() == 1 {
        assert(s.drop_last() =~= Seq::<char>::empty());
        assert(s.drop_first() =~= Seq::<char>::empty());
        assert(ics_text(s.drop_first()) =~= Seq::<char>::empty());
        assert(ics_text(s) =~= ics_char(s[0]));
    } else {
        lemma_ics_text_front(s.drop_last());
        assert(s.drop_last().drop_first() =~= s.drop_first().drop_last());
        assert(s.drop_first().last() == s.last());
        assert(ics_text(s) =~= ics_char(s[0]) + ics_text(s.drop_first()));
    }
}

/// Law: escaping maps each character to its own escape, so reading the
/// escaped text back gives the input.
pub proof fn ics_escape_round_trips(s: Seq<char>)
    ensures
        ics_unescape(ics_text(s)) == s,
    decreases s.len(),
{
    if s.len() == 0 {
        assert(ics_text(s) =~= Seq::<char>::empty());
    } else {
        lemma_ics_text_front(s);
        let c = s[0];
        let rest = ics_text(s.drop_first());
        ics_escape_round_trips(s.drop_first());
        let t = ics_char(c) + rest;
        if c == '\\' || c == ',' || c == ';' || c == '\n' {
            assert(t.skip(2) =~= rest);
        } else {
            assert(t.skip(1) =~= rest);
        }
        assert(ics_unescape(t) =~= s);
    }
}

/// Escapes text for an iCalendar property.
pub fn ics_escape(value: &str) -> (r: String)
    ensures
        r@ == ics_text(value@),
{
    let s = chars_of(value);
    let mut out: Vec<char> = Vec::new();
    let mut i: usize = 0;
    while i < s.len()
        invariant
            s@ == value@,
            i <= s.len(),
            out@ == ics_text(s@.take(i as int)),
        decreases s.len() - i,
    {
        assert(s@.take(i + 1).drop_last() =~= s@.take(i as int));
        let c = s[i];
        let ghost before = out@;
        if c == '\\' || c == ',' || c == ';' || c == '\n' {
            out.push('\\');
            out.push(if c == '\n' { 'n' } else { c });
        } else {
            out.push(c);
        }
        assert(out@ =~= before + ics_char(c));
        i += 1;
    }
    assert(s@.take(s.len() as int) =~= s@);
    string_of(out.as_slice())
}

/// `s` without its '-' characters.
pub open spec fn without_dashes(s: Seq<char>) -> Seq<char>
    decreases s.len(),
{
    if s.len() == 0 {
        Seq::empty()
    } else {
        without_dashes(s.drop_last()) + if s.last() == '-' { Seq::empty() } else { seq![s.last()] }
    }
}

fn drop_char(s: &Vec<char>, gone: char) -> (r: Vec<char>)
    ensures
        gone == '-' ==> r@ == without_dashes(s@),
        gone == ':' ==> r@ == without_colons(s@),
{
    let mut out: Vec<char> = Vec::new();
    let mut i: usize = 0;
    while i < s.len()
        invariant
            i <= s.len(),
            gone == '-' ==> out@ == without_dashes(s@.take(i as int)),
            gone == ':' ==> out@ == without_colons(s@.take(i as int)),
        decreases s.len() - i,
    {
        assert(s@.take(i + 1).drop_last() =~= s@.take(i as int));
        let ghost before = out@;
        if s[i] != gone {
            out.push(s[i]);
        }
        assert(gone == '-' ==> out@ =~= without_dashes(s@.take(i + 1)));
        assert(gone == ':' ==> out@ =~= without_colons(s@.take(i + 1)));
        i += 1;
    }
    assert(s@.take(s.len() as int) =~= s@);
    out
}

/// A `YYYY-MM-DD` date as an iCalendar date (`YYYYMMDD`).
pub fn ics_date(value: &str) -> (r: String)
    ensures
        r@ == without_dashes(value@),
{
    let s = chars_of(value);
    let out = drop_char(&s, '-');
    string_of(out.as_slice())
}

/// `s` without its ':' characters.
pub open spec fn without_colons(s: Seq<char>) -> Seq<char>
    decreases s.len(),
{
    if s.len() == 0 {
        Seq::empty()
    } else {
        without_colons(s.drop_last()) + if s.last() == ':' { Seq::empty() } else { seq![s.last()] }
    }
}

/// An open task with a due value, for the calendar feed.
pub struct DueRow {
    pub id: i64,
    pub title: String,
    pub course_code: String,
    pub due_at: String,
}

/// An open study block, for the calendar feed.
pub struct BlockRow {
    pub id: i64,
    pub planned_date: String,
    pub planned_start_time: Option<String>,
    pub planned_minutes: i64,
    pub title: String,
    pub course_code: String,
}

/// The feed's opening lines.
pub open spec fn ics_header() -> Seq<char> {
    "BEGIN:VCALENDAR\r\nVERSION:2.0\r\nPRODID:-//TaskTimer//EN\r\nCALSCALE:GREGORIAN\r\n"@
}

/// The all-day event of a due date (the date part: its first ten bytes).
pub open spec fn due_event(r: DueRow) -> Seq<char> {
    "BEGIN:VEVENT\r\nUID:tasktimer-due-"@ + signed_decimal(r.id as int) + "@tasktimer\r\nDTSTART;VALUE=DATE:"@
        + without_dashes(byte_prefix(r.due_at@, 10)) + "\r\nSUMMARY:"@
        + ics_text(r.course_code@ + " — "@ + r.title@) + "\r\nEND:VEVENT\r\n"@
}

/// The position of the first `c` in `s`.
pub open spec fn first_index_of(s: Seq<char>, c: char, from: int) -> Option<int>
    decreases s.len() - from,
{
    if from < 0 || from >= s.len() {
        None
    } else if s[from] == c {
        Some(from)
    } else {
        first_index_of(s, c, from + 1)
    }
}

/// Hours and minutes of a start time: the numbers before and after its
/// first ':', or zero and zero where either does not read.
pub open spec fn hours_minutes(t: Seq<char>) -> (int, int) {
    match first_index_of(t, ':', 0) {
        Some(i) => match (parsed_i64(t.subrange(0, i)), parsed_i64(t.subrange(i + 1, t.len() as int))) {
            (Some(h), Some(m)) => (h as int, m as int),
            _ => (0, 0),
        },
        None => (0, 0),
    }
}

/// The minute of the day a timed block ends at, before wrapping.
pub open spec fn block_end_total(t: Seq<char>, minutes: i64) -> int {
    hours_minutes(t).0 * 60 + hours_minutes(t).1 + minutes
}

/// The summary of a study block's event.
pub open spec fn block_summary(r: BlockRow) -> Seq<char> {
    ics_text("Study: "@ + r.course_code@ + " — "@ + r.title@)
}

/// The event of a study block: timed (start, and end wrapped to the day)
/// when it has a start time, else all-day.
pub open spec fn block_event(r: BlockRow) -> Seq<char> {
    let uid = "BEGIN:VEVENT\r\nUID:tasktimer-block-"@ + signed_decimal(r.id as int) + "@tasktimer\r\n"@;
    let day = without_dashes(r.planned_date@);
    let when = match r.planned_start_time {
        Some(t) => timed_lines(day, t@, r.planned_minutes),
        None => "DTSTART;VALUE=DATE:"@ + day,
    };
    uid + when + "\r\nSUMMARY:"@ + block_summary(r) + "\r\nEND:VEVENT\r\n"@
}

/// The events of the due rows, in order.
pub open spec fn due_events(rows: Seq<DueRow>) -> Seq<char>
    decreases rows.len(),
{
    if rows.len() == 0 {
        Seq::empty()
    } else {
        due_events(rows.drop_last()) + due_event(rows.last())
    }
}

/// The events of the block rows, in order.
pub open spec fn block_events(rows: Seq<BlockRow>) -> Seq<char>
    decreases rows.len(),
{
    if rows.len() == 0 {
        Seq::empty()
    } else {
        block_events(rows.drop_last()) + block_event(rows.last())
    }
}

/// The whole calendar feed.
pub open spec fn calendar_text(dues: Seq<DueRow>, blocks: Seq<BlockRow>) -> Seq<char> {
    ics_header() + due_events(dues) + block_events(blocks) + "END:VCALENDAR\r\n"@
}

/// The feed can be written: every due value's first ten bytes end on a
/// character boundary, and every timed block's end minute fits in an `i64`.
pub open spec fn calendar_fits(dues: Seq<DueRow>, blocks: Seq<BlockRow>) -> bool {
    &&& forall|i: int| 0 <= i < dues.len() ==> cut_ok((#[trigger] dues[i]).due_at@, 10)
    &&& forall|i: int| 0 <= i < blocks.len() ==> ((#[trigger] blocks[i]).planned_start_time matches Some(t)
        ==> i64::MIN <= hours_minutes(t@).0 * 60 <= i64::MAX
        && i64::MIN <= hours_minutes(t@).0 * 60 + hours_minutes(t@).1 <= i64::MAX
        && i64::MIN <= block_end_total(t@, blocks[i].planned_minutes) <= i64::MAX)
}

fn push_chars(out: &mut Vec<char>, s: &Vec<char>)
    ensures
        final(out)@ == old(out)@ + s@,
{
    let ghost start = out@;
    let mut i: usize = 0;
    while i < s.len()
        invariant
            i <= s.len(),
            out@ == start + s@.take(i as int),
        decreases s.len() - i,
    {
        out.push(s[i]);
        assert(out@ =~= start + s@.take(i + 1));
        i += 1;
    }
    assert(s@.take(s.len() as int) =~= s@);
}

fn split_at_colon(t: &Vec<char>) -> (r: Option<usize>)
    ensures
        r matches Some(i) ==> first_index_of(t@, ':', 0) == Some(i as int) && i < t.len(),
        r is None ==> first_index_of(t@, ':', 0) is None,
{
    let mut i: usize = 0;
    while i < t.len()
        invariant
            i <= t.len(),
            first_index_of(t@, ':', 0) == first_index_of(t@, ':', i as int),
        decreases t.len() - i,
    {
        if t[i] == ':' {
            return Some(i);
        }
        i += 1;
    }
    None
}

fn start_hours_minutes(t: &str) -> (r: (i64, i64))
    ensures
        r.0 as int == hours_minutes(t@).0,
        r.1 as int == hours_minutes(t@).1,
{
    let cs = chars_of(t);
    match split_at_colon(&cs) {
        Some(i) => {
            let mut left: Vec<char> = Vec::new();
            let mut k: usize = 0;
            while k < i
                invariant
                    i < cs.len(),
                    k <= i,
                    left@ == cs@.subrange(0, k as int),
                decreases i - k,
            {
                left.push(cs[k]);
                assert(left@ =~= cs@.subrange(0, k + 1));
                k += 1;
            }
            let mut right: Vec<char> = Vec::new();
            let mut j: usize = i + 1;
            while j < cs.len()
                invariant
                    i < cs.len(),
                    i + 1 <= j <= cs.len(),
                    right@ == cs@.subrange(i + 1, j as int),
                decreases cs.len() - j,
            {
                right.push(cs[j]);
                assert(right@ =~= cs@.subrange(i + 1, j + 1));
                j += 1;
            }
            assert(cs@ == t@);
            match (parse_i64(left.as_slice()), parse_i64(right.as_slice())) {
                (Some(h), Some(m)) => (h, m),
                _ => (0, 0),
            }
        },
        None => (0, 0),
    }
}

fn push_due_event(out: &mut Vec<char>, r: &DueRow)
    requires
        cut_ok(r.due_at@, 10),
    ensures
        final(out)@ == old(out)@ + due_event(*r),
{
    let ghost start = out@;
    push_str(out, "BEGIN:VEVENT\r\nUID:tasktimer-due-");
    push_signed(out, r.id);
    push_str(out, "@tasktimer\r\nDTSTART;VALUE=DATE:");
    let head = first_ten_bytes(r.due_at.as_str());
    let day = drop_char(&head, '-');
    push_chars(out, &day);
    push_str(out, "\r\nSUMMARY:");
    let mut text: Vec<char> = Vec::new();
    push_str(&mut text, r.course_code.as_str());
    push_str(&mut text, " — ");
    push_str(&mut text, r.title.as_str());
    let summary_source = string_of(text.as_slice());
    let summary = ics_escape(summary_source.as_str());
    push_str(out, summary.as_str());
    push_str(out, "\r\nEND:VEVENT\r\n");
    assert(out@ =~= start + due_event(*r));
}

/// The start and end lines of a timed block.
pub open spec fn timed_lines(day: Seq<char>, t: Seq<char>, minutes: i64) -> Seq<char> {
    let total = block_end_total(t, minutes);
    "DTSTART:"@ + day + "T"@ + without_colons(t) + "00"@
        + "\r\nDTEND:"@ + day + "T"@ + pad2(trem(tdiv(total, 60), 24)) + pad2(trem(total, 60)) + "00"@
}

fn push_timed_lines(out: &mut Vec<char>, day: &Vec<char>, t: &str, minutes: i64)
    requires
        i64::MIN <= hours_minutes(t@).0 * 60 <= i64::MAX,
        i64::MIN <= hours_minutes(t@).0 * 60 + hours_minutes(t@).1 <= i64::MAX,
        i64::MIN <= block_end_total(t@, minutes) <= i64::MAX,
    ensures
        final(out)@ == old(out)@ + timed_lines(day@, t@, minutes),
{
    let ghost start = out@;
    let (h, m) = start_hours_minutes(t);
    let total = h * 60 + m + minutes;
    push_str(out, "DTSTART:");
    push_chars(out, day);
    push_str(out, "T");
    let tc = chars_of(t);
    let bare = drop_char(&tc, ':');
    push_chars(out, &bare);
    push_str(out, "00");
    push_str(out, "\r\nDTEND:");
    push_chars(out, day);
    push_str(out, "T");
    push_pad2(out, crate::num::rem_by(crate::num::div_trunc(total, 60), 24));
    push_pad2(out, crate::num::rem_by(total, 60));
    push_str(out, "00");
    assert(out@ =~= start + timed_lines(day@, t@, minutes));
}

fn push_block_event(out: &mut Vec<char>, r: &BlockRow)
    requires
        r.planned_start_time matches Some(t) ==> i64::MIN <= hours_minutes(t@).0 * 60 <= i64::MAX
            && i64::MIN <= hours_minutes(t@).0 * 60 + hours_minutes(t@).1 <= i64::MAX
            && i64::MIN <= block_end_total(t@, r.planned_minutes) <= i64::MAX,
    ensures
        final(out)@ == old(out)@ + block_event(*r),
{
    let ghost start = out@;
    push_str(out, "BEGIN:VEVENT\r\nUID:tasktimer-block-");
    push_signed(out, r.id);
    push_str(out, "@tasktimer\r\n");
    let date_chars = chars_of(r.planned_date.as_str());
    let day = drop_char(&date_chars, '-');
    let mut text: Vec<char> = Vec::new();
    push_str(&mut text, "Study: ");
    push_str(&mut text, r.course_code.as_str());
    push_str(&mut text, " — ");
    push_str(&mut text, r.title.as_str());
    let summary_source = string_of(text.as_slice());
    let summary = ics_escape(summary_source.as_str());
    let ghost mid = out@;
    match &r.planned_start_time {
        Some(t) => {
            push_timed_lines(out, &day, t.as_str(), r.planned_minutes);
        },
        None => {
            push_str(out, "DTSTART;VALUE=DATE:");
            push_chars(out, &day);
        },
    }
    push_str(out, "\r\nSUMMARY:");
    push_str(out, summary.as_str());
    push_str(out, "\r\nEND:VEVENT\r\n");
    assert(out@ =~= start + block_event(*r));
}

/// Whether `calendar_ics` can write these rows (`calendar_fits`): each due
/// value cuts to its first ten bytes on a character boundary, and each
/// timed block's start minute and end minute fit an `i64`.
pub fn calendar_fits_check(dues: &Vec<DueRow>, blocks: &Vec<BlockRow>) -> (r: bool)
    ensures
        r == calendar_fits(dues@, blocks@),
{
    let mut i: usize = 0;
    while i < dues.len()
        invariant
            i <= dues.len(),
            forall|k: int| 0 <= k < i ==> cut_ok((#[trigger] dues@[k]).due_at@, 10),
        decreases dues.len() - i,
    {
        if !cut_ok_exec(dues[i].due_at.as_str(), 10) {
            assert(!cut_ok(dues@[i as int].due_at@, 10));
            return false;
        }
        i += 1;
    }
    let mut j: usize = 0;
    while j < blocks.len()
        invariant
            j <= blocks.len(),
            forall|k: int| 0 <= k < dues.len() ==> cut_ok((#[trigger] dues@[k]).due_at@, 10),
            forall|k: int| 0 <= k < j ==> ((#[trigger] blocks@[k]).planned_start_time matches Some(t)
                ==> i64::MIN <= hours_minutes(t@).0 * 60 <= i64::MAX
                && i64::MIN <= hours_minutes(t@).0 * 60 + hours_minutes(t@).1 <= i64::MAX
                && i64::MIN <= block_end_total(t@, blocks@[k].planned_minutes) <= i64::MAX),
        decreases blocks.len() - j,
    {
        if let Some(t) = &blocks[j].planned_start_time {
            let (h, m) = start_hours_minutes(t.as_str());
            let start: i128 = h as i128 * 60;
            let with_minutes: i128 = start + m as i128;
            let end: i128 = with_minutes + blocks[j].planned_minutes as i128;
            let lo: i128 = i64::MIN as i128;
            let hi: i128 = i64::MAX as i128;
            if start < lo || start > hi || with_minutes < lo || with_minutes > hi || end < lo || end > hi {
                assert(blocks@[j as int].planned_start_time == Some(*t));
                return false;
            }
        }
        j += 1;
    }
    true
}

/// The iCalendar feed of open due dates and open study blocks.
pub fn calendar_ics(dues: &Vec<DueRow>, blocks: &Vec<BlockRow>) -> (r: String)
    requires
        calendar_fits(dues@, blocks@),
    ensures
        r@ == calendar_text(dues@, blocks@),
{
    let mut out: Vec<char> = Vec::new();
    push_str(&mut out, "BEGIN:VCALENDAR\r\nVERSION:2.0\r\nPRODID:-//TaskTimer//EN\r\nCALSCALE:GREGORIAN\r\n");
    let mut i: usize = 0;
    while i < dues.len()
        invariant
            i <= dues.len(),
            calendar_fits(dues@, blocks@),
            out@ == ics_header() + due_events(dues@.take(i as int)),
        decreases dues.len() - i,
    {
        assert(dues@.take(i + 1).drop_last() =~= dues@.take(i as int));
        assert(cut_ok(dues@[i as int].due_at@, 10));
        push_due_event(&mut out, &dues[i]);
        assert(out@ =~= ics_header() + due_events(dues@.take(i + 1)));
        i += 1;
    }
    assert(dues@.take(dues.len() as int) =~= dues@);
    let mut j: usize = 0;
    while j < blocks.len()
        invariant
            j <= blocks.len(),
            calendar_fits(dues@, blocks@),
            out@ == ics_header() + due_events(dues@) + block_events(blocks@.take(j as int)),
        decreases blocks.len() - j,
    {
        assert(blocks@.take(j + 1).drop_last() =~= blocks@.take(j as int));
        let ghost b = blocks@[j as int];
        assert(b.planned_start_time matches Some(t) ==> i64::MIN <= hours_minutes(t@).0 * 60 <= i64::MAX);
        push_block_event(&mut out, &blocks[j]);
        assert(out@ =~= ics_header() + due_events(dues@) + block_events(blocks@.take(j + 1)));
        j += 1;
    }
    assert(blocks@.take(blocks.len() as int) =~= blocks@);
    push_str(&mut out, "END:VCALENDAR\r\n");
    string_of(out.as_slice())
}

/// What an export writes.
#[derive(PartialEq, Eq, Structural, Clone, Copy)]
pub enum ExportKind {
    /// The time history as CSV ("csv").
    History,
    /// The task list as CSV ("tasks").
    Tasks,
    /// A JSON backup ("json").
    Backup,
    /// The calendar feed ("ics").
    Calendar,
}

/// The export kind a format name asks for.
pub fn export_kind(format: &str) -> (r: Result<ExportKind, String>)
    ensures
        format@ == "csv"@ ==> r == Ok::<ExportKind, String>(ExportKind::History),
        format@ == "tasks"@ ==> r == Ok::<ExportKind, String>(ExportKind::Tasks),
        format@ == "json"@ ==> r == Ok::<ExportKind, String>(ExportKind::Backup),
        format@ == "ics"@ ==> r == Ok::<ExportKind, String>(ExportKind::Calendar),
        format@ != "csv"@ && format@ != "tasks"@ && format@ != "json"@ && format@ != "ics"@
            ==> (r matches Err(m) && m@ == "Choose CSV, JSON, or calendar export."@),
{
    proof {
        reveal_strlit("csv");
        reveal_strlit("tasks");
        reveal_strlit("json");
        reveal_strlit("ics");
        assert("csv"@.len() == 3 && "tasks"@.len() == 5 && "json"@.len() == 4 && "ics"@.len() == 3);
        assert("csv"@[0] == 'c' && "ics"@[0] == 'i');
    }
    if str_eq(format, "csv") {
        Ok(ExportKind::History)
    } else if str_eq(format, "tasks") {
        Ok(ExportKind::Tasks)
    } else if str_eq(format, "json") {
        Ok(ExportKind::Backup)
    } else if str_eq(format, "ics") {
        Ok(ExportKind::Calendar)
    } else {
        Err(message("Choose CSV, JSON, or calendar export."))
    }
}

/// The file extension of an export.
pub open spec fn extension_of(kind: ExportKind) -> Seq<char> {
    match kind {
        ExportKind::Backup => "json"@,
        ExportKind::Calendar => "ics"@,
        _ => "csv"@,
    }
}

/// The suggested file name of an export.
pub open spec fn file_name_of(kind: ExportKind) -> Seq<char> {
    match kind {
        ExportKind::Backup => "tasktimer-export.json"@,
        ExportKind::Calendar => "tasktimer-calendar.ics"@,
        _ => "tasktimer-export.csv"@,
    }
}

/// An export's file extension and suggested file name.
pub fn export_file(kind: ExportKind) -> (r: (String, String))
    ensures
        r.0@ == extension_of(kind),
        r.1@ == file_name_of(kind),
{
    match kind {
        ExportKind::Backup => (message("json"), message("tasktimer-export.json")),
        ExportKind::Calendar => (message("ics"), message("tasktimer-calendar.ics")),
        _ => (message("csv"), message("tasktimer-export.csv")),
    }
}

/// The chosen path must end in the export's extension.
pub fn check_export_extension(kind: ExportKind, chosen: Option<&str>) -> (r: Result<(), String>)
    ensures
        r is Ok <==> (chosen matches Some(e) && e@ == extension_of(kind)),
        r matches Err(m) ==> m@ == "Choose a file ending in ."@ + extension_of(kind),
{
    let (ext, _) = export_file(kind);
    let fine = match chosen {
        Some(e) => str_eq(e, ext.as_str()),
        None => false,
    };
    if fine {
        Ok(())
    } else {
        let mut v: Vec<char> = Vec::new();
        push_str(&mut v, "Choose a file ending in .");
        push_str(&mut v, ext.as_str());
        Err(string_of(v.as_slice()))
    }
}

/// A backup must be of format version 1.
pub fn check_backup_version(version: Option<i64>) -> (r: Result<(), String>)
    ensures
        r is Ok <==> version == Some(1i64),
        r matches Err(m) ==> m@ == "Unsupported backup format."@,
{
    match version {
        Some(v) => if v == 1 { Ok(()) } else { Err(message("Unsupported backup format.")) },
        None => Err(message("Unsupported backup format.")),
    }
}

/// What `serde_json::from_slice` makes of a backup file's bytes, read as
/// far as the format check needs: `None` when the bytes are not JSON;
/// otherwise `Some` of the `format_version` field as an `i64` (`None` when
/// the value is not an object, lacks the field, or the field is no integer
/// that fits an `i64`).
pub uninterp spec fn backup_version(bytes: Seq<u8>) -> Option<Option<i64>>;

/// Parses the bytes with `serde_json::from_slice` into a `serde_json::Value`
/// and reads `format_version` with `Value::as_i64`.
#[verifier::external_body]
fn read_backup_version(bytes: &[u8]) -> (r: Option<Option<i64>>)
    ensures
        r == backup_version(bytes@),
{
    match serde_json::from_slice::<serde_json::Value>(bytes) {
        Ok(backup) => Some(backup["format_version"].as_i64()),
        Err(_) => None,
    }
}

/// The refusal of a file that is not JSON.
pub open spec fn not_a_backup_text() -> Seq<char> {
    "That file isn't a TaskTimer backup."@
}

/// Whether a file's bytes can be restored: they must be JSON whose
/// `format_version` is 1.
pub fn check_backup(bytes: &[u8]) -> (r: Result<(), String>)
    ensures
        (backup_version(bytes@) is None) <==> (r matches Err(m) && m@ == not_a_backup_text()),
        backup_version(bytes@) matches Some(v) ==> ((r is Ok <==> v == Some(1i64))
            && (r matches Err(m) ==> m@ == "Unsupported backup format."@)),
{
    match read_backup_version(bytes) {
        None => {
            let m = message("That file isn't a TaskTimer backup.");
            proof {
                reveal_strlit("That file isn't a TaskTimer backup.");
                reveal_strlit("Unsupported backup format.");
            }
            Err(m)
        },
        Some(v) => {
            let r = check_backup_version(v);
            proof {
                reveal_strlit("That file isn't a TaskTimer backup.");
                reveal_strlit("Unsupported backup format.");
                assert("Unsupported backup format."@[0] != not_a_backup_text()[0]);
            }
            r
        },
    }
}

/// The cells of a CSV line, each made safe, joined by commas.
pub open spec fn csv_cells(cells: Seq<String>) -> Seq<char>
    decreases cells.len(),
{
    if cells.len() == 0 {
        Seq::empty()
    } else if cells.len() == 1 {
        csv_cell(cells[0]@)
    } else {
        csv_cells(cells.drop_last()) + seq![','] + csv_cell(cells.last()@)
    }
}

/// One CSV line: the safe cells joined by commas, ended by CRLF.
pub fn csv_line(cells: &Vec<String>) -> (r: String)
    ensures
        r@ == csv_cells(cells@) + "\r\n"@,
{
    let mut out: Vec<char> = Vec::new();
    let mut i: usize = 0;
    while i < cells.len()
        invariant
            i <= cells.len(),
            out@ == csv_cells(cells@.take(i as int)),
        decreases cells.len() - i,
    {
        assert(cells@.take(i + 1).drop_last() =~= cells@.take(i as int));
        if i > 0 {
            out.push(',');
        }
        let cell = safe(cells[i].clone());
        push_str(&mut out, cell.as_str());
        assert(out@ =~= csv_cells(cells@.take(i + 1)));
        i += 1;
    }
    assert(cells@.take(cells.len() as int) =~= cells@);
    push_str(&mut out, "\r\n");
    string_of(out.as_slice())
}

} // verus!
