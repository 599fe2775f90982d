//! The replies to the raw-state requests, line by line.

use crate::raw_state::types::{
    ConfigurationStatus, MatrixConnection, MatrixState, RawGpioStates, ShiftRegisterState,
};
use crate::text::{
    chars_of, parse_unsigned, parse_unsigned_range, range_equals, range_texts, split, split_ranges,
};
use vstd::prelude::*;

verus! {

/// `s` without one leading `0x`, if it has one.
pub open spec fn strip_hex_mark(s: Seq<char>) -> Option<Seq<char>> {
    if s.len() >= 2 && s[0] == '0' && s[1] == 'x' {
        Some(s.skip(2))
    } else {
        None
    }
}

/// `GPIO_STATES:0x<hex>:<timestamp>`, three fields and no more.
pub open spec fn spec_parse_gpio_response(line: Seq<char>) -> Option<RawGpioStates> {
    let parts = split(line, ':');
    if parts.len() != 3 || parts[0] != "GPIO_STATES"@ {
        None
    } else {
        match strip_hex_mark(parts[1]) {
            Some(hex) => match (
                parse_unsigned(hex, true, u32::MAX as nat),
                parse_unsigned(parts[2], false, u64::MAX as nat),
            ) {
                (Some(mask), Some(timestamp)) => Some(
                    RawGpioStates { gpio_mask: mask as u32, timestamp: timestamp as u64 },
                ),
                _ => None,
            },
            None => None,
        }
    }
}

/// `MATRIX_STATE:<row>:<col>:<state>:<timestamp>`. A second field that
/// says that no matrix or no matrix pins are configured is the firmware's
/// refusal; any other line that does not have this shape says nothing.
pub open spec fn spec_parse_matrix_response(line: Seq<char>) -> Result<
    Option<MatrixConnection>,
    ConfigurationStatus,
> {
    let parts = split(line, ':');
    if parts.len() >= 2 && parts[1] == "NO_MATRIX_CONFIGURED"@ {
        Err(ConfigurationStatus::NotConfigured)
    } else if parts.len() >= 2 && parts[1] == "NO_MATRIX_PINS_CONFIGURED"@ {
        Err(ConfigurationStatus::PinsNotConfigured)
    } else if parts.len() != 5 || parts[0] != "MATRIX_STATE"@ {
        Ok(None)
    } else {
        match (
            parse_unsigned(parts[1], false, u8::MAX as nat),
            parse_unsigned(parts[2], false, u8::MAX as nat),
            parse_unsigned(parts[3], false, u8::MAX as nat),
        ) {
            (Some(row), Some(col), Some(state)) => Ok(
                Some(
                    MatrixConnection { row: row as u8, col: col as u8, is_connected: state == 1 },
                ),
            ),
            _ => Ok(None),
        }
    }
}

/// `SHIFT_REG:<id>:<hex>:<timestamp>`, the value with or without `0x`. A
/// second field that says that no shift register is configured is the
/// firmware's refusal.
pub open spec fn spec_parse_shift_reg_response(line: Seq<char>) -> Result<
    Option<ShiftRegisterState>,
    ConfigurationStatus,
> {
    let parts = split(line, ':');
    if parts.len() >= 2 && parts[1] == "NO_SHIFT_REG_CONFIGURED"@ {
        Err(ConfigurationStatus::NotConfigured)
    } else if parts.len() != 4 || parts[0] != "SHIFT_REG"@ {
        Ok(None)
    } else {
        let hex = match strip_hex_mark(parts[2]) {
            Some(rest) => rest,
            None => parts[2],
        };
        match (
            parse_unsigned(parts[1], false, u8::MAX as nat),
            parse_unsigned(hex, true, u8::MAX as nat),
            parse_unsigned(parts[3], false, u64::MAX as nat),
        ) {
            (Some(register_id), Some(value), Some(timestamp)) => Ok(
                Some(
                    ShiftRegisterState {
                        register_id: register_id as u8,
                        value: value as u8,
                        timestamp: timestamp as u64,
                    },
                ),
            ),
            _ => Ok(None),
        }
    }
}

/// Where `cs[from..to]` begins after one leading `0x`, if it has one.
fn after_hex_mark(cs: &[char], from: usize, to: usize) -> (r: Option<usize>)
    requires
        from <= to <= cs.len(),
    ensures
        match r {
            Some(a) => from <= a <= to && strip_hex_mark(cs@.subrange(from as int, to as int))
                == Some(cs@.subrange(a as int, to as int)),
            None => strip_hex_mark(cs@.subrange(from as int, to as int)) is None,
        },
{
    if to - from >= 2 && cs[from] == '0' && cs[from + 1] == 'x' {
        assert(cs@.subrange(from as int, to as int).skip(2) =~= cs@.subrange(from + 2, to as int));
        Some(from + 2)
    } else {
        None
    }
}

fn field_is(cs: &[char], range: (usize, usize), word: &str) -> (r: bool)
    requires
        range.0 <= range.1 <= cs.len(),
    ensures
        r == (cs@.subrange(range.0 as int, range.1 as int) == word@),
{
    let w = chars_of(word);
    range_equals(cs, range.0, range.1, w.as_slice())
}

/// Reads the reply to a GPIO request.
pub fn parse_gpio_response(line: &str) -> (r: Option<RawGpioStates>)
    ensures
        r == spec_parse_gpio_response(line@),
{
    let chars = chars_of(line);
    let cs = chars.as_slice();
    assert(cs@.subrange(0, cs@.len() as int) =~= cs@);
    let ranges = split_ranges(cs, 0, cs.len(), ':');
    let ghost parts = range_texts(cs@, ranges@);
    if ranges.len() != 3 {
        return None;
    }
    assert(parts[0] == cs@.subrange(ranges[0].0 as int, ranges[0].1 as int));
    assert(parts[1] == cs@.subrange(ranges[1].0 as int, ranges[1].1 as int));
    assert(parts[2] == cs@.subrange(ranges[2].0 as int, ranges[2].1 as int));
    if !field_is(cs, ranges[0], "GPIO_STATES") {
        return None;
    }
    let start = match after_hex_mark(cs, ranges[1].0, ranges[1].1) {
        Some(a) => a,
        None => {
            return None;
        },
    };
    let mask = parse_unsigned_range(cs, start, ranges[1].1, true, u32::MAX as u64);
    let timestamp = parse_unsigned_range(cs, ranges[2].0, ranges[2].1, false, u64::MAX);
    match (mask, timestamp) {
        (Some(mask), Some(timestamp)) => Some(RawGpioStates { gpio_mask: mask as u32, timestamp }),
        _ => None,
    }
}

/// Reads one line of the reply to a matrix request.
pub fn parse_matrix_response(line: &str) -> (r: Result<
    Option<MatrixConnection>,
    ConfigurationStatus,
>)
    ensures
        r == spec_parse_matrix_response(line@),
{
    let chars = chars_of(line);
    let cs = chars.as_slice();
    assert(cs@.subrange(0, cs@.len() as int) =~= cs@);
    let ranges = split_ranges(cs, 0, cs.len(), ':');
    let ghost parts = range_texts(cs@, ranges@);
    if ranges.len() >= 2 {
        assert(parts[1] == cs@.subrange(ranges[1].0 as int, ranges[1].1 as int));
        if field_is(cs, ranges[1], "NO_MATRIX_CONFIGURED") {
            return Err(ConfigurationStatus::NotConfigured);
        }
        if field_is(cs, ranges[1], "NO_MATRIX_PINS_CONFIGURED") {
            return Err(ConfigurationStatus::PinsNotConfigured);
        }
    }
    if ranges.len() != 5 {
        return Ok(None);
    }
    assert(parts[0] == cs@.subrange(ranges[0].0 as int, ranges[0].1 as int));
    assert(parts[2] == cs@.subrange(ranges[2].0 as int, ranges[2].1 as int));
    assert(parts[3] == cs@.subrange(ranges[3].0 as int, ranges[3].1 as int));
    if !field_is(cs, ranges[0], "MATRIX_STATE") {
        return Ok(None);
    }
    let row = parse_unsigned_range(cs, ranges[1].0, ranges[1].1, false, u8::MAX as u64);
    let col = parse_unsigned_range(cs, ranges[2].0, ranges[2].1, false, u8::MAX as u64);
    let state = parse_unsigned_range(cs, ranges[3].0, ranges[3].1, false, u8::MAX as u64);
    match (row, col, state) {
        (Some(row), Some(col), Some(state)) => Ok(
            Some(MatrixConnection { row: row as u8, col: col as u8, is_connected: state == 1 }),
        ),
        _ => Ok(None),
    }
}

/// Reads one line of the reply to a shift-register request.
pub fn parse_shift_reg_response(line: &str) -> (r: Result<
    Option<ShiftRegisterState>,
    ConfigurationStatus,
>)
    ensures
        r == spec_parse_shift_reg_response(line@),
{
    let chars = chars_of(line);
    let cs = chars.as_slice();
    assert(cs@.subrange(0, cs@.len() as int) =~= cs@);
    let ranges = split_ranges(cs, 0, cs.len(), ':');
    let ghost parts = range_texts(cs@, ranges@);
    if ranges.len() >= 2 {
        assert(parts[1] == cs@.subrange(ranges[1].0 as int, ranges[1].1 as int));
        if field_is(cs, ranges[1], "NO_SHIFT_REG_CONFIGURED") {
            return Err(ConfigurationStatus::NotConfigured);
        }
    }
    if ranges.len() != 4 {
        return Ok(None);
    }
    assert(parts[0] == cs@.subrange(ranges[0].0 as int, ranges[0].1 as int));
    assert(parts[2] == cs@.subrange(ranges[2].0 as int, ranges[2].1 as int));
    assert(parts[3] == cs@.subrange(ranges[3].0 as int, ranges[3].1 as int));
    if !field_is(cs, ranges[0], "SHIFT_REG") {
        return Ok(None);
    }
    let register_id = parse_unsigned_range(cs, ranges[1].0, ranges[1].1, false, u8::MAX as u64);
    let start = match after_hex_mark(cs, ranges[2].0, ranges[2].1) {
        Some(a) => a,
        None => ranges[2].0,
    };
    let value = parse_unsigned_range(cs, start, ranges[2].1, true, u8::MAX as u64);
    let timestamp = parse_unsigned_range(cs, ranges[3].0, ranges[3].1, false, u64::MAX);
    match (register_id, value, timestamp) {
        (Some(register_id), Some(value), Some(timestamp)) => Ok(
            Some(
                ShiftRegisterState { register_id: register_id as u8, value: value as u8, timestamp },
            ),
        ),
        _ => Ok(None),
    }
}

/// The connections that the lines of a reply report, in order, or the
/// first refusal among them. Lines that say nothing are passed over.
pub open spec fn spec_matrix_connections(lines: Seq<Seq<char>>) -> Result<
    Seq<MatrixConnection>,
    ConfigurationStatus,
>
    decreases lines.len(),
{
    if lines.len() == 0 {
        Ok(Seq::empty())
    } else {
        match spec_matrix_connections(lines.drop_last()) {
            Err(status) => Err(status),
            Ok(found) => match spec_parse_matrix_response(lines.last()) {
                Err(status) => Err(status),
                Ok(Some(connection)) => Ok(found.push(connection)),
                Ok(None) => Ok(found),
            },
        }
    }
}

/// The register states that the lines of a reply report, in order, or the
/// first refusal among them.
pub open spec fn spec_shift_reg_states(lines: Seq<Seq<char>>) -> Result<
    Seq<ShiftRegisterState>,
    ConfigurationStatus,
>
    decreases lines.len(),
{
    if lines.len() == 0 {
        Ok(Seq::empty())
    } else {
        match spec_shift_reg_states(lines.drop_last()) {
            Err(status) => Err(status),
            Ok(found) => match spec_parse_shift_reg_response(lines.last()) {
                Err(status) => Err(status),
                Ok(Some(state)) => Ok(found.push(state)),
                Ok(None) => Ok(found),
            },
        }
    }
}

/// Reads the whole reply to a matrix request. The reply carries no time of
/// its own that is kept, so the state is stamped with `now_us`, the
/// caller's clock in microseconds.
pub fn parse_matrix_responses(lines: Vec<String>, now_us: u64) -> (r: Result<
    MatrixState,
    ConfigurationStatus,
>)
    ensures
        match r {
            Ok(state) => spec_matrix_connections(lines.deep_view()) == Ok::<
                Seq<MatrixConnection>,
                ConfigurationStatus,
            >(state.connections@) && state.timestamp == now_us,
            Err(status) => spec_matrix_connections(lines.deep_view()) == Err::<
                Seq<MatrixConnection>,
                ConfigurationStatus,
            >(status),
        },
{
    let ghost texts = lines.deep_view();
    let mut connections: Vec<MatrixConnection> = Vec::new();
    let mut i: usize = 0;
    while i < lines.len()
        invariant
            i <= lines.len(),
            texts == lines.deep_view(),
            spec_matrix_connections(texts.take(i as int)) == Ok::<
                Seq<MatrixConnection>,
                ConfigurationStatus,
            >(connections@),
        decreases lines.len() - i,
    {
        assert(texts.take(i + 1).drop_last() =~= texts.take(i as int));
        assert(texts.take(i + 1).last() == lines[i as int]@);
        match parse_matrix_response(lines[i].as_str()) {
            Ok(Some(connection)) => {
                connections.push(connection);
            },
            Ok(None) => {},
            Err(status) => {
                proof {
                    lemma_matrix_refusal_stays(texts, i + 1);
                }
                return Err(status);
            },
        }
        i = i + 1;
    }
    assert(texts.take(lines.len() as int) =~= texts);
    Ok(MatrixState { connections, timestamp: now_us })
}

/// Once a beginning of a reply holds a refusal, the whole reply is refused
/// with it.
pub proof fn lemma_matrix_refusal_stays(lines: Seq<Seq<char>>, k: int)
    requires
        0 <= k <= lines.len(),
        spec_matrix_connections(lines.take(k)) is Err,
    ensures
        spec_matrix_connections(lines) == spec_matrix_connections(lines.take(k)),
    decreases lines.len(),
{
    if k == lines.len() {
        assert(lines.take(k) =~= lines);
    } else {
        assert(lines.drop_last().take(k) =~= lines.take(k));
        lemma_matrix_refusal_stays(lines.drop_last(), k);
    }
}

/// Once the lines up to `k` are refused, further lines change nothing.
pub proof fn lemma_shift_reg_refusal_stays(lines: Seq<Seq<char>>, k: int)
    requires
        0 <= k <= lines.len(),
        spec_shift_reg_states(lines.take(k)) is Err,
    ensures
        spec_shift_reg_states(lines) == spec_shift_reg_states(lines.take(k)),
    decreases lines.len(),
{
    if k == lines.len() {
        assert(lines.take(k) =~= lines);
    } else {
        assert(lines.drop_last().take(k) =~= lines.take(k));
        lemma_shift_reg_refusal_stays(lines.drop_last(), k);
    }
}

/// `sorted` with `state` put in after every entry whose register is not
/// greater than its own.
pub open spec fn insert_by_register(sorted: Seq<ShiftRegisterState>, state: ShiftRegisterState)
    -> Seq<ShiftRegisterState>
    decreases sorted.len(),
{
    if sorted.len() > 0 && sorted.last().register_id > state.register_id {
        insert_by_register(sorted.drop_last(), state).push(sorted.last())
    } else {
        sorted.push(state)
    }
}

/// The states in the order of their registers; states of one register keep
/// the order in which they came.
pub open spec fn sort_by_register(states: Seq<ShiftRegisterState>) -> Seq<ShiftRegisterState>
    decreases states.len(),
{
    if states.len() == 0 {
        Seq::empty()
    } else {
        insert_by_register(sort_by_register(states.drop_last()), states.last())
    }
}

/// No state stands before one of a smaller register.
pub open spec fn ordered_by_register(s: Seq<ShiftRegisterState>) -> bool {
    forall|i: int, j: int|
        0 <= i < j < s.len() ==> (#[trigger] s[i]).register_id <= (#[trigger] s[j]).register_id
}

/// Inserting a state keeps the order and adds exactly that state.
pub proof fn lemma_insert_by_register(sorted: Seq<ShiftRegisterState>, state: ShiftRegisterState)
    requires
        ordered_by_register(sorted),
    ensures
        ordered_by_register(insert_by_register(sorted, state)),
        insert_by_register(sorted, state).to_multiset() == sorted.to_multiset().insert(state),
        insert_by_register(sorted, state).len() == sorted.len() + 1,
    decreases sorted.len(),
{
    broadcast use vstd::seq_lib::group_to_multiset_ensures;

    let r = insert_by_register(sorted, state);
    if sorted.len() > 0 && sorted.last().register_id > state.register_id {
        let init = sorted.drop_last();
        lemma_insert_by_register(init, state);
        let ri = insert_by_register(init, state);
        assert(sorted =~= init.push(sorted.last()));
        assert forall|i: int, j: int| 0 <= i < j < r.len() implies r[i].register_id
            <= r[j].register_id by {
            if j == r.len() - 1 {
                assert(ri.to_multiset().count(ri[i]) > 0);
                if ri[i] != state {
                    assert(init.to_multiset().count(ri[i]) > 0);
                    let k = choose|k: int| 0 <= k < init.len() && init[k] == ri[i];
                    assert(sorted[k] == ri[i]);
                }
            }
        }
    } else {
        assert forall|i: int, j: int| 0 <= i < j < r.len() implies r[i].register_id
            <= r[j].register_id by {
            if j == r.len() - 1 && sorted.len() > 0 {
                assert(sorted[i].register_id <= sorted.last().register_id);
            }
        }
    }
}

/// Sorting gives the same states, ordered by register.
pub proof fn lemma_sort_by_register(states: Seq<ShiftRegisterState>)
    ensures
        ordered_by_register(sort_by_register(states)),
        sort_by_register(states).to_multiset() == states.to_multiset(),
        sort_by_register(states).len() == states.len(),
    decreases states.len(),
{
    broadcast use vstd::seq_lib::group_to_multiset_ensures;

    if states.len() > 0 {
        lemma_sort_by_register(states.drop_last());
        lemma_insert_by_register(sort_by_register(states.drop_last()), states.last());
        assert(states =~= states.drop_last().push(states.last()));
    }
}

fn insert_state(sorted: &mut Vec<ShiftRegisterState>, state: ShiftRegisterState)
    ensures
        final(sorted)@ == insert_by_register(old(sorted)@, state),
{
    let mut at: usize = sorted.len();
    proof {
        assert(sorted@.take(at as int) =~= sorted@);
        assert(insert_by_register(sorted@, state) + sorted@.skip(at as int)
            =~= insert_by_register(sorted@, state));
    }
    while at > 0 && sorted[at - 1].register_id > state.register_id
        invariant
            at <= sorted.len(),
            *sorted == *old(sorted),
            insert_by_register(sorted@, state) == insert_by_register(sorted@.take(at as int), state)
                + sorted@.skip(at as int),
        decreases at,
    {
        let ghost head = sorted@.take(at as int);
        assert(head.drop_last() =~= sorted@.take(at - 1));
        assert(insert_by_register(head, state) + sorted@.skip(at as int) =~= insert_by_register(
            sorted@.take(at - 1),
            state,
        ) + sorted@.skip(at - 1));
        at = at - 1;
    }
    sorted.insert(at, state);
    assert(sorted@ =~= old(sorted)@.take(at as int).push(state) + old(sorted)@.skip(at as int));
}

/// Reads the whole reply to a shift-register request and orders the states
/// by register.
pub fn parse_shift_reg_responses(lines: Vec<String>) -> (r: Result<
    Vec<ShiftRegisterState>,
    ConfigurationStatus,
>)
    ensures
        match r {
            Ok(states) => spec_shift_reg_states(lines.deep_view()) is Ok && states@
                == sort_by_register(spec_shift_reg_states(lines.deep_view())->Ok_0),
            Err(status) => spec_shift_reg_states(lines.deep_view()) == Err::<
                Seq<ShiftRegisterState>,
                ConfigurationStatus,
            >(status),
        },
{
    let ghost texts = lines.deep_view();
    let mut registers: Vec<ShiftRegisterState> = Vec::new();
    let mut i: usize = 0;
    while i < lines.len()
        invariant
            i <= lines.len(),
            texts == lines.deep_view(),
            spec_shift_reg_states(texts.take(i as int)) is Ok,
            registers@ == sort_by_register(spec_shift_reg_states(texts.take(i as int))->Ok_0),
        decreases lines.len() - i,
    {
        assert(texts.take(i + 1).drop_last() =~= texts.take(i as int));
        assert(texts.take(i + 1).last() == lines[i as int]@);
        let ghost found = spec_shift_reg_states(texts.take(i as int))->Ok_0;
        match parse_shift_reg_response(lines[i].as_str()) {
            Ok(Some(state)) => {
                insert_state(&mut registers, state);
                assert(found.push(state).drop_last() =~= found);
            },
            Ok(None) => {},
            Err(status) => {
                proof {
                    lemma_shift_reg_refusal_stays(texts, i + 1);
                }
                return Err(status);
            },
        }
        i = i + 1;
    }
    assert(texts.take(lines.len() as int) =~= texts);
    Ok(registers)
}

} // verus!
