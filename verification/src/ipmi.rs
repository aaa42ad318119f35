//! The sensor reader: what the listing command of the platform management
//! tool prints, and how its lines are matched to the registered points.

use crate::command::{texts, Invocation};
use crate::error::{AcquisitionFault, ControlError};
use crate::search::{first_where, lemma_first_where, lemma_first_where_is};
use crate::text::{
    decimal, find_char, index_of, is_char, is_digit, lemma_decimal_round_trip,
    lemma_signed_decimal_round_trip, parse_i32, parse_u32, parsed_i32, parsed_u32, same_text,
    signed_decimal, to_chars, to_text, trim, trimmed, utf8_text,
};
use vstd::prelude::*;
use vstd::utf8::{decode_utf8, valid_utf8};

verus! {

/// What a sensor reported in the current cycle.
#[derive(Debug, Clone, Copy, PartialEq, Eq, Structural)]
pub enum IPMIValue {
    /// Nothing yet, or a value in a unit that is not watched.
    Unknown,
    /// A value in a watched unit whose number could not be read.
    Invalid,
    /// A temperature in degrees Celsius.
    Temp(i32),
    /// A rotation speed in revolutions per minute.
    RPM(u32),
}

/// A registered point and what its sensor reported in the current cycle.
#[derive(Debug, Clone, PartialEq, Eq)]
pub struct IPMIRequest {
    pub name: String,
    pub status: IPMIValue,
}

/// A named reading as the contracts see it.
pub struct Reading {
    pub name: Seq<char>,
    pub status: IPMIValue,
}

impl View for IPMIRequest {
    type V = Reading;

    open spec fn view(&self) -> Reading {
        Reading { name: self.name@, status: self.status }
    }
}

/// The readings held by `values`, in their order.
pub open spec fn readings(values: Seq<IPMIRequest>) -> Seq<Reading> {
    values.map_values(|r: IPMIRequest| r@)
}

/// The unit label of a rotation speed, with the space that precedes it.
pub open spec fn rpm_label() -> Seq<char> {
    " RPM"@
}

/// The unit label of a temperature, with the space that precedes it.
pub open spec fn temp_label() -> Seq<char> {
    " degrees C"@
}

/// The status that the value field `value` stands for: the field is split
/// before its first space into a number and a unit label.
pub open spec fn parsed_value(value: Seq<char>) -> IPMIValue {
    let k = index_of(value, ' ');
    let data = value.take(k);
    let label = value.skip(k);
    if k >= value.len() {
        IPMIValue::Unknown
    } else if label == rpm_label() {
        match parsed_u32(data) {
            Some(v) => IPMIValue::RPM(v),
            None => IPMIValue::Invalid,
        }
    } else if label == temp_label() {
        match parsed_i32(data) {
            Some(v) => IPMIValue::Temp(v),
            None => IPMIValue::Invalid,
        }
    } else {
        IPMIValue::Unknown
    }
}

/// The reading that `line` carries: its first two `|`-delimited fields,
/// trimmed, are the name and the value. A line without `|` carries none.
pub open spec fn line_reading(line: Seq<char>) -> Option<Reading> {
    let a = index_of(line, '|');
    let rest = line.skip(a + 1);
    let b = index_of(rest, '|');
    if a >= line.len() {
        None
    } else {
        Some(Reading { name: trimmed(line.take(a)), status: parsed_value(trimmed(rest.take(b))) })
    }
}

/// The property of a point that a reading for `name` may still be attached
/// to: it has that name and no reading yet.
pub open spec fn claimable(name: Seq<char>) -> spec_fn(Reading) -> bool {
    |r: Reading| r.status is Unknown && r.name == name
}

/// `rs` after `found` was attached: the first point of that name that has no
/// reading yet takes it, and where there is none nothing changes.
pub open spec fn assigned(rs: Seq<Reading>, found: Reading) -> Seq<Reading> {
    let i = first_where(rs, claimable(found.name));
    if i < rs.len() {
        rs.update(i, found)
    } else {
        rs
    }
}

/// `rs` after the line `line` was processed.
pub open spec fn after_line(rs: Seq<Reading>, line: Seq<char>) -> Seq<Reading> {
    match line_reading(line) {
        Some(found) => assigned(rs, found),
        None => rs,
    }
}

/// `rs` after the lines of `text` were processed in their order. Lines end
/// at a line feed.
pub open spec fn after_lines(rs: Seq<Reading>, text: Seq<char>) -> Seq<Reading>
    decreases text.len(),
{
    let k = index_of(text, '\n');
    if k >= text.len() {
        after_line(rs, text)
    } else {
        proof {
            lemma_first_where(text, is_char('\n'));
        }
        after_lines(after_line(rs, text.take(k)), text.skip(k + 1))
    }
}

/// The text whose lines are `lines`, each ended by a line feed.
pub open spec fn listing(lines: Seq<Seq<char>>) -> Seq<char>
    decreases lines.len(),
{
    if lines.len() == 0 {
        Seq::empty()
    } else {
        lines.first() + seq!['\n'] + listing(lines.drop_first())
    }
}

/// Whether `line` carries a value for a point named `name`.
pub open spec fn carries_value_for(line: Seq<char>, name: Seq<char>) -> bool {
    &&& !line.contains('\n')
    &&& line_reading(line) matches Some(found)
    &&& found.name == name
    &&& !(found.status is Unknown)
}

/// `rs` with every reading forgotten.
pub open spec fn cleared(rs: Seq<Reading>) -> Seq<Reading> {
    rs.map_values(|r: Reading| Reading { name: r.name, status: IPMIValue::Unknown })
}

/// The readings after a poll that ended as `outcome` says.
pub open spec fn polled(rs: Seq<Reading>, outcome: Invocation) -> Seq<Reading> {
    match outcome {
        Invocation::Failed => cleared(rs),
        Invocation::Finished(out) => if valid_utf8(out.stdout@) {
            after_lines(cleared(rs), decode_utf8(out.stdout@))
        } else {
            cleared(rs)
        },
    }
}

/// The fault of a poll that ended as `outcome` says, if it has one.
pub open spec fn poll_fault(outcome: Invocation) -> Option<AcquisitionFault> {
    match outcome {
        Invocation::Failed => Some(AcquisitionFault::NotInvocable),
        Invocation::Finished(out) => if !valid_utf8(out.stdout@) {
            Some(AcquisitionFault::InvalidUtf8)
        } else if !out.success {
            Some(AcquisitionFault::NonZeroExit)
        } else {
            None
        },
    }
}

/// A value written as a number and its unit label is read back as that
/// value: a temperature as a signed decimal before ` degrees C`, a rotation
/// speed as a decimal before ` RPM`.
pub proof fn lemma_value_round_trip(temp: i32, rpm: u32)
    ensures
        parsed_value(signed_decimal(temp as int) + temp_label()) == IPMIValue::Temp(temp),
        parsed_value(decimal(rpm as nat) + rpm_label()) == IPMIValue::RPM(rpm),
{
    reveal_strlit(" RPM");
    reveal_strlit(" degrees C");
    lemma_signed_decimal_round_trip(temp as int);
    lemma_decimal_round_trip(rpm as nat);
    if temp < 0 {
        lemma_decimal_round_trip((-temp) as nat);
    } else {
        lemma_decimal_round_trip(temp as nat);
    }
    let t = signed_decimal(temp as int);
    let t_text = t + temp_label();
    assert forall|k: int| 0 <= k < t.len() implies !is_char(' ')(#[trigger] t_text[k]) by {
        if temp < 0 && k > 0 {
            assert(t[k] == decimal((-temp) as nat)[k - 1]);
        }
    }
    lemma_first_where_is(t_text, is_char(' '), t.len() as int);
    assert(t_text.take(t.len() as int) =~= t);
    assert(t_text.skip(t.len() as int) =~= temp_label());
    let r = decimal(rpm as nat);
    let r_text = r + rpm_label();
    assert forall|k: int| 0 <= k < r.len() implies !is_char(' ')(#[trigger] r_text[k]) by {
        assert(is_digit(r[k]));
    }
    lemma_first_where_is(r_text, is_char(' '), r.len() as int);
    assert(r_text.take(r.len() as int) =~= r);
    assert(r_text.skip(r.len() as int) =~= rpm_label());
}

/// Attaching a reading changes no name and not the number of points, and
/// only a point without a reading changes its status.
pub proof fn lemma_assigned_keeps_names(rs: Seq<Reading>, found: Reading)
    ensures
        assigned(rs, found).len() == rs.len(),
        forall|i: int| 0 <= i < rs.len() ==> (#[trigger] assigned(rs, found)[i]).name == rs[i].name,
        forall|i: int|
            0 <= i < rs.len() && !(rs[i].status is Unknown) ==> (#[trigger] assigned(
                rs,
                found,
            )[i]) == rs[i],
{
    lemma_first_where(rs, claimable(found.name));
}

/// First match wins: of two points that can still take a reading for one
/// name, the earlier takes the first such reading and the later the second.
///
/// `i` and `j` are the first two points that can take a reading for the name
/// of `first` and `second`, and both readings hold a value.
pub proof fn lemma_first_match_wins(
    rs: Seq<Reading>,
    i: int,
    j: int,
    first: Reading,
    second: Reading,
)
    requires
        0 <= i < j < rs.len(),
        first.name == second.name,
        !(first.status is Unknown),
        claimable(first.name)(rs[i]),
        claimable(first.name)(rs[j]),
        forall|k: int| 0 <= k < j && k != i ==> !claimable(first.name)(#[trigger] rs[k]),
    ensures
        assigned(assigned(rs, first), second) == rs.update(i, first).update(j, second),
{
    let name = first.name;
    lemma_first_where_is(rs, claimable(name), i);
    let next = rs.update(i, first);
    assert forall|k: int| 0 <= k < j implies !claimable(name)(#[trigger] next[k]) by {
        if k != i {
            assert(next[k] == rs[k]);
        }
    }
    lemma_first_where_is(next, claimable(name), j);
}

/// The points before `m` have their readings, those from `m` on have none,
/// and `lines` names the points from `m` on in their order: then each of
/// these points takes the reading of its own line.
proof fn lemma_listing_from(rs: Seq<Reading>, lines: Seq<Seq<char>>, m: int)
    requires
        0 <= m <= rs.len(),
        lines.len() == rs.len() - m,
        forall|i: int| 0 <= i < m ==> !((#[trigger] rs[i]).status is Unknown),
        forall|i: int| m <= i < rs.len() ==> (#[trigger] rs[i]).status is Unknown,
        forall|i: int|
            0 <= i < lines.len() ==> carries_value_for(#[trigger] lines[i], rs[m + i].name),
    ensures
        after_lines(rs, listing(lines)).len() == rs.len(),
        forall|i: int|
            0 <= i < rs.len() ==> #[trigger] after_lines(rs, listing(lines))[i] == if i < m {
                rs[i]
            } else {
                line_reading(lines[i - m])->0
            },
    decreases lines.len(),
{
    let text = listing(lines);
    if lines.len() == 0 {
        assert(index_of(text, '\n') >= text.len()) by {
            lemma_first_where(text, is_char('\n'));
        }
        assert(index_of(text, '|') >= text.len()) by {
            lemma_first_where(text, is_char('|'));
        }
    } else {
        let line = lines.first();
        let rest = lines.drop_first();
        let found = line_reading(line)->0;
        assert(carries_value_for(lines[0], rs[m + 0].name));
        assert forall|k: int| 0 <= k < line.len() implies !is_char('\n')(#[trigger] text[k]) by {
            assert(text[k] == line[k]);
            assert(line.contains(line[k]));
        }
        lemma_first_where_is(text, is_char('\n'), line.len() as int);
        assert(text.take(line.len() as int) =~= line);
        assert(text.skip(line.len() as int + 1) =~= listing(rest));
        assert forall|k: int| 0 <= k < m implies !claimable(found.name)(#[trigger] rs[k]) by {}
        lemma_first_where_is(rs, claimable(found.name), m);
        let next = rs.update(m, found);
        assert(after_line(rs, line) == next);
        assert forall|i: int| 0 <= i < rest.len() implies carries_value_for(
            #[trigger] rest[i],
            next[m + 1 + i].name,
        ) by {
            assert(rest[i] == lines[i + 1]);
            assert(carries_value_for(lines[i + 1], rs[m + (i + 1)].name));
        }
        lemma_listing_from(next, rest, m + 1);
        assert forall|i: int| 0 <= i < rs.len() implies #[trigger] after_lines(rs, text)[i] == if i
            < m {
            rs[i]
        } else {
            line_reading(lines[i - m])->0
        } by {
            assert(after_lines(rs, text) == after_lines(next, listing(rest)));
            if i > m {
                assert(rest[i - (m + 1)] == lines[i - m]);
            }
        }
    }
}

/// Registration order: where no point has a reading yet and the listing
/// holds one line for each point, in registration order, that carries a value
/// for the name of that point, each point takes the reading of its own line,
/// also where several points have one name.
pub proof fn lemma_listing_in_order(rs: Seq<Reading>, lines: Seq<Seq<char>>)
    requires
        lines.len() == rs.len(),
        forall|i: int| 0 <= i < rs.len() ==> (#[trigger] rs[i]).status is Unknown,
        forall|i: int| 0 <= i < lines.len() ==> carries_value_for(#[trigger] lines[i], rs[i].name),
    ensures
        after_lines(rs, listing(lines)).len() == rs.len(),
        forall|i: int|
            0 <= i < rs.len() ==> #[trigger] after_lines(rs, listing(lines))[i] == line_reading(
                lines[i],
            )->0,
{
    lemma_listing_from(rs, lines, 0);
}

/// Processing lines changes no name and not the number of points, and a
/// point that has a reading keeps it.
pub proof fn lemma_after_lines_keeps_names(rs: Seq<Reading>, text: Seq<char>)
    ensures
        after_lines(rs, text).len() == rs.len(),
        forall|i: int| 0 <= i < rs.len() ==> (#[trigger] after_lines(rs, text)[i]).name == rs[i].name,
        forall|i: int|
            0 <= i < rs.len() && !(rs[i].status is Unknown) ==> (#[trigger] after_lines(
                rs,
                text,
            )[i]) == rs[i],
    decreases text.len(),
{
    let k = index_of(text, '\n');
    if k >= text.len() {
        match line_reading(text) {
            Some(found) => lemma_assigned_keeps_names(rs, found),
            None => {},
        }
    } else {
        lemma_first_where(text, is_char('\n'));
        let next = after_line(rs, text.take(k));
        match line_reading(text.take(k)) {
            Some(found) => lemma_assigned_keeps_names(rs, found),
            None => {},
        }
        lemma_after_lines_keeps_names(next, text.skip(k + 1));
        assert forall|i: int| 0 <= i < rs.len() implies (#[trigger] after_lines(rs, text)[i]).name
            == rs[i].name by {
            assert(after_lines(next, text.skip(k + 1))[i].name == next[i].name);
        }
        assert forall|i: int| 0 <= i < rs.len() && !(rs[i].status is Unknown) implies (
        #[trigger] after_lines(rs, text)[i]) == rs[i] by {
            assert(next[i] == rs[i]);
            assert(after_lines(next, text.skip(k + 1))[i] == next[i]);
        }
    }
}

/// A poll changes no name and not the number of points.
pub proof fn lemma_polled_keeps_names(rs: Seq<Reading>, outcome: Invocation)
    ensures
        polled(rs, outcome).len() == rs.len(),
        forall|i: int| 0 <= i < rs.len() ==> (#[trigger] polled(rs, outcome)[i]).name == rs[i].name,
{
    match outcome {
        Invocation::Failed => {},
        Invocation::Finished(out) => {
            if valid_utf8(out.stdout@) {
                lemma_after_lines_keeps_names(cleared(rs), decode_utf8(out.stdout@));
                assert forall|i: int| 0 <= i < rs.len() implies (#[trigger] polled(
                    rs,
                    outcome,
                )[i]).name == rs[i].name by {
                    assert(cleared(rs)[i].name == rs[i].name);
                }
            }
        },
    }
}

/// The arguments with which the platform management tool lists every
/// sensor.
pub open spec fn listing_args() -> Seq<Seq<char>> {
    seq!["sdr"@, "list"@, "full"@]
}

/// The arguments with which the platform management tool lists every
/// sensor.
pub fn sensor_list_command() -> (args: Vec<String>)
    ensures
        texts(args@) == listing_args(),
{
    let mut args: Vec<String> = Vec::new();
    args.push("sdr".to_owned());
    args.push("list".to_owned());
    args.push("full".to_owned());
    assert(texts(args@) =~= listing_args());
    args
}

/// Whether `s` reads as the literal `lit`.
fn text_is(s: &[char], lit: &str) -> (r: bool)
    ensures
        r == (s@ == lit@),
{
    let l = to_chars(lit);
    same_text(s, l.as_slice())
}

/// Reads a value field.
fn parse_value(value: &[char]) -> (r: IPMIValue)
    ensures
        r == parsed_value(value@),
{
    let k = find_char(value, ' ');
    if k >= value.len() {
        return IPMIValue::Unknown;
    }
    let data = &value[0..k];
    let label = &value[k..value.len()];
    assert(data@ =~= value@.take(k as int));
    assert(label@ =~= value@.skip(k as int));
    if text_is(label, " RPM") {
        match parse_u32(data) {
            Some(v) => IPMIValue::RPM(v),
            None => IPMIValue::Invalid,
        }
    } else if text_is(label, " degrees C") {
        match parse_i32(data) {
            Some(v) => IPMIValue::Temp(v),
            None => IPMIValue::Invalid,
        }
    } else {
        IPMIValue::Unknown
    }
}

/// Reads the value field of the sensor `name`: a number, a space and a unit
/// label. `name` takes no part in the result.
pub fn parse_ipmi_value(name: &str, value: &str) -> (r: IPMIValue)
    ensures
        r == parsed_value(value@),
{
    let chars = to_chars(value);
    parse_value(chars.as_slice())
}

/// Forgets every reading.
fn reset(values: &mut Vec<IPMIRequest>)
    ensures
        readings(final(values)@) == cleared(readings(old(values)@)),
{
    let mut i: usize = 0;
    while i < values.len()
        invariant
            i <= values.len(),
            values.len() == old(values).len(),
            forall|k: int| 0 <= k < i ==> (#[trigger] values@[k])@ == (Reading {
                name: old(values)@[k].name@,
                status: IPMIValue::Unknown,
            }),
            forall|k: int| i <= k < values.len() ==> values@[k] == old(values)@[k],
        decreases values.len() - i,
    {
        values[i].status = IPMIValue::Unknown;
        i += 1;
    }
    assert(readings(values@) =~= cleared(readings(old(values)@)));
}

/// Attaches a reading to the first point of its name that has none yet.
fn assign(values: &mut Vec<IPMIRequest>, name: &String, status: IPMIValue)
    ensures
        readings(final(values)@) == assigned(
            readings(old(values)@),
            Reading { name: name@, status },
        ),
{
    let mut i: usize = 0;
    while i < values.len()
        invariant
            i <= values.len(),
            values@ == old(values)@,
            forall|k: int| 0 <= k < i ==> !claimable(name@)(#[trigger] readings(values@)[k]),
        decreases values.len() - i,
    {
        let open = match values[i].status {
            IPMIValue::Unknown => true,
            _ => false,
        };
        if open && values[i].name == *name {
            values[i].status = status;
            proof {
                let rs = readings(old(values)@);
                lemma_first_where_is(rs, claimable(name@), i as int);
                assert(readings(values@) =~= rs.update(
                    i as int,
                    Reading { name: name@, status },
                ));
            }
            return;
        }
        i += 1;
    }
    proof {
        lemma_first_where_is(readings(values@), claimable(name@), i as int);
    }
}

/// Processes one line of the listing.
fn apply_line(values: &mut Vec<IPMIRequest>, line: &[char])
    ensures
        readings(final(values)@) == after_line(readings(old(values)@), line@),
{
    let a = find_char(line, '|');
    if a >= line.len() {
        return;
    }
    let rest = &line[a + 1..line.len()];
    let b = find_char(rest, '|');
    let name = trim(&line[0..a]);
    let value = trim(&rest[0..b]);
    assert(line@.subrange(0, a as int) =~= line@.take(a as int));
    assert(rest@ =~= line@.skip(a as int + 1));
    assert(rest@.subrange(0, b as int) =~= rest@.take(b as int));
    let status = parse_value(value);
    let name = to_text(name);
    assign(values, &name, status);
}

/// Processes the lines of the listing in their order.
fn apply_lines(values: &mut Vec<IPMIRequest>, text: &[char])
    ensures
        readings(final(values)@) == after_lines(readings(old(values)@), text@),
{
    let mut start: usize = 0;
    assert(text@.skip(0) =~= text@);
    loop
        invariant_except_break
            start <= text.len(),
            after_lines(readings(old(values)@), text@) == after_lines(
                readings(values@),
                text@.skip(start as int),
            ),
        ensures
            readings(values@) == after_lines(readings(old(values)@), text@),
        decreases text.len() - start,
    {
        let rest = &text[start..text.len()];
        assert(rest@ =~= text@.skip(start as int));
        let k = find_char(rest, '\n');
        if k >= rest.len() {
            apply_line(values, rest);
            break;
        }
        assert(rest@.subrange(0, k as int) =~= rest@.take(k as int));
        apply_line(values, &rest[0..k]);
        assert(rest@.skip(k as int + 1) =~= text@.skip(start as int + k as int + 1));
        start = start + k + 1;
    }
}

/// Takes in what a poll of the sensors brought.
///
/// Every reading is forgotten first, so that none survives from an earlier
/// cycle. Where the listing ran and wrote UTF-8 text, its lines are then
/// matched to the points in their order, whatever its exit status; the status
/// is judged afterwards, so the readings of a failed listing stay in `values`.
pub fn get_ipmi_values(values: &mut Vec<IPMIRequest>, outcome: &Invocation) -> (r: Result<
    (),
    ControlError,
>)
    ensures
        readings(final(values)@) == polled(readings(old(values)@), *outcome),
        r == match poll_fault(*outcome) {
            Some(fault) => Err::<(), ControlError>(ControlError::AcquisitionFailed { fault }),
            None => Ok(()),
        },
{
    reset(values);
    match outcome {
        Invocation::Failed => Err(
            ControlError::AcquisitionFailed { fault: AcquisitionFault::NotInvocable },
        ),
        Invocation::Finished(out) => {
            match utf8_text(out.stdout.as_slice()) {
                None => Err(
                    ControlError::AcquisitionFailed { fault: AcquisitionFault::InvalidUtf8 },
                ),
                Some(text) => {
                    let chars = to_chars(text);
                    apply_lines(values, chars.as_slice());
                    if out.success {
                        Ok(())
                    } else {
                        Err(
                            ControlError::AcquisitionFailed {
                                fault: AcquisitionFault::NonZeroExit,
                            },
                        )
                    }
                },
            }
        },
    }
}

} // verus!
