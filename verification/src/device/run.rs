//! The device route's own decisions: the step count a repeating-step route
//! drives, how often a single-run route repeats, and the receipt lines it
//! prints about the executed launch order and the declared resource graph.
use vstd::prelude::*;
use crate::device::descriptor::DeviceDescriptor;
use crate::device::training::DEFAULT_TRAINING_STEPS;
use crate::device::schema::ProgramLifetime;
use crate::device::wire::WireProgramLifetime;
use crate::device::wire::WireResultBuffer;
use crate::device::schema::ObservationCadence;
use crate::naming::decimal;
use crate::naming::decimal_text;
use crate::naming::owned;
use crate::naming::str_chars;

verus! {

/// The declared per-step observation of a program: the buffer of its first
/// result row observed every step (a training run's loss), if any.
pub open spec fn per_step_observation_of(results: Seq<WireResultBuffer>) -> Option<u32>
    decreases results.len(),
{
    if results.len() == 0 {
        None
    } else if results[0].observation.cadence == ObservationCadence::PerStep {
        Some(results[0].buffer.id)
    } else {
        per_step_observation_of(results.drop_first())
    }
}

/// The buffer whose readback a step-run report reads its loss from: the
/// declared per-step observation, never merely the first buffer read back.
pub fn declared_step_observation(results: &Vec<WireResultBuffer>) -> (r: Option<u32>)
    ensures
        r == per_step_observation_of(results@),
{
    let mut i: usize = 0;
    assert(results@.skip(0) =~= results@);
    while i < results.len()
        invariant
            i <= results.len(),
            per_step_observation_of(results@.skip(i as int)) == per_step_observation_of(results@),
        decreases results.len() - i,
    {
        proof {
            assert(results@.skip(i as int)[0] == results@[i as int]);
            assert(results@.skip(i as int).drop_first() =~= results@.skip(i + 1));
        }
        if results[i].observation.cadence == ObservationCadence::PerStep {
            return Some(results[i].buffer.id);
        }
        i = i + 1;
    }
    proof {
        assert(results@.skip(i as int).len() == 0);
    }
    None
}


broadcast use vstd::string::group_string_axioms;

// ---------------------------------------------------------------------------
// Decimal counts
// ---------------------------------------------------------------------------

pub open spec fn is_digit(c: char) -> bool {
    '0' <= c && c <= '9'
}

pub open spec fn digit_value(c: char) -> int {
    c as int - '0' as int
}

/// The value of a digit string.
pub open spec fn decimal_value(s: Seq<char>) -> int
    decreases s.len(),
{
    if s.len() == 0 {
        0
    } else {
        decimal_value(s.drop_last()) * 10 + digit_value(s.last())
    }
}

/// The digits of an unsigned count: the text after one optional `+`.
pub open spec fn unsigned_digits(s: Seq<char>) -> Seq<char> {
    if s.len() > 0 && s[0] == '+' {
        s.drop_first()
    } else {
        s
    }
}

/// The unsigned count a text spells, if it is an optional `+` followed by
/// at least one decimal digit and the value is at most `max`.
pub open spec fn count_spelled(s: Seq<char>, max: int) -> Option<int> {
    let d = unsigned_digits(s);
    if d.len() > 0 && (forall|i: int| 0 <= i < d.len() ==> is_digit(#[trigger] d[i])) && decimal_value(d) <= max {
        Some(decimal_value(d))
    } else {
        None
    }
}

proof fn lemma_decimal_value_prefix(s: Seq<char>, i: int)
    requires
        0 <= i <= s.len(),
        forall|k: int| 0 <= k < s.len() ==> is_digit(#[trigger] s[k]),
    ensures
        0 <= decimal_value(s.take(i)) <= decimal_value(s),
    decreases s.len() - i,
{
    if i < s.len() {
        lemma_decimal_value_prefix(s, i + 1);
        assert(s.take(i + 1).drop_last() =~= s.take(i));
        assert(s.take(i + 1).last() == s[i]);
    } else {
        assert(s.take(i) =~= s);
        lemma_decimal_value_nonneg(s);
    }
}

proof fn lemma_decimal_value_nonneg(s: Seq<char>)
    requires
        forall|k: int| 0 <= k < s.len() ==> is_digit(#[trigger] s[k]),
    ensures
        decimal_value(s) >= 0,
    decreases s.len(),
{
    if s.len() > 0 {
        assert(is_digit(s[s.len() - 1]));
        lemma_decimal_value_nonneg(s.drop_last());
    }
}

proof fn lemma_decimal_digits(n: nat)
    ensures
        decimal(n).len() > 0,
        forall|i: int| 0 <= i < decimal(n).len() ==> is_digit(#[trigger] decimal(n)[i]),
        decimal_value(decimal(n)) == n,
    decreases n,
{
    if n >= 10 {
        lemma_decimal_digits(n / 10);
        let prev = decimal(n / 10);
        let d = decimal(n);
        assert(d.drop_last() =~= prev);
        assert forall|i: int| 0 <= i < d.len() implies is_digit(#[trigger] d[i]) by {
            if i < prev.len() {
                assert(d[i] == prev[i]);
            }
        }
        assert(d.last() == crate::naming::digit_char(n % 10));
        assert(digit_value(d.last()) == n % 10);
        assert(decimal_value(d) == decimal_value(prev) * 10 + digit_value(d.last()));
        assert((n / 10) * 10 + n % 10 == n);
        assert(decimal_value(d) == n);
    } else {
        let d = decimal(n);
        assert(d.drop_last() =~= Seq::<char>::empty());
        assert(decimal_value(d.drop_last()) == 0);
        assert(digit_value(d.last()) == n);
        assert(decimal_value(d) == n);
    }
}

/// The decimal spelling of a count is accepted as that count by any limit
/// it does not exceed: what a receipt prints, an override may repeat.
pub proof fn law_decimal_spelling_is_a_count(n: nat, max: int)
    requires
        n <= max,
    ensures
        count_spelled(decimal(n), max) == Some(n as int),
{
    lemma_decimal_digits(n);
    assert(decimal(n)[0] != '+');
    assert(unsigned_digits(decimal(n)) == decimal(n));
}

/// The unsigned count a text spells, at most `max` (see [`count_spelled`]).
pub fn parse_count(text: &str, max: u64) -> (r: Option<u64>)
    ensures
        match r {
            Some(v) => count_spelled(text@, max as int) == Some(v as int),
            None => count_spelled(text@, max as int) is None,
        },
{
    let chars = str_chars(text);
    let start: usize = if chars.len() > 0 && chars[0] == '+' { 1 } else { 0 };
    let ghost d = unsigned_digits(text@);
    assert(d =~= chars@.subrange(start as int, chars@.len() as int));
    if start >= chars.len() {
        return None;
    }
    let mut acc: u64 = 0;
    let mut i: usize = start;
    while i < chars.len()
        invariant
            start <= i <= chars.len(),
            d == unsigned_digits(text@),
            chars@ == text@,
            d == chars@.subrange(start as int, chars@.len() as int),
            forall|k: int| 0 <= k < i - start ==> is_digit(#[trigger] d[k]),
            acc as int == decimal_value(d.take(i - start)),
            acc <= max,
        decreases chars.len() - i,
    {
        let c = chars[i];
        assert(d[i - start] == c);
        if !('0' <= c && c <= '9') {
            return None;
        }
        let v: u64 = (c as u32 - '0' as u32) as u64;
        assert(d.take(i - start + 1).drop_last() =~= d.take(i - start));
        assert(d.take(i - start + 1).last() == c);
        if v > max || acc > (max - v) / 10 {
            proof {
                if v <= max {
                    assert(acc * 10 + v > max) by (nonlinear_arith)
                        requires
                            acc > (max - v) / 10,
                            v <= 9,
                            v <= max,
                    ;
                }
                assert forall|k: int| 0 <= k < i - start + 1 implies is_digit(#[trigger] d.take(i - start + 1)[k]) by {
                    assert(d.take(i - start + 1)[k] == d[k]);
                }
                if forall|k: int| 0 <= k < d.len() ==> is_digit(#[trigger] d[k]) {
                    lemma_decimal_value_prefix(d, i - start + 1);
                }
            }
            return None;
        }
        proof {
            assert(acc * 10 + v <= max) by (nonlinear_arith)
                requires
                    acc <= (max - v) / 10,
                    v <= 9,
                    v <= max,
            ;
        }
        acc = acc * 10 + v;
        i = i + 1;
    }
    assert(d.take(d.len() as int) =~= d);
    Some(acc)
}

/// Why the step count of a repeating-step route is refused.
#[derive(Clone, Copy, Debug, PartialEq, Eq, Structural)]
pub enum StepsError {
    /// The override is not a non-negative integer.
    NotACount,
    /// The override contradicts the image's declared step count.
    Contradicts { given: u32, declared: u32 },
}

/// The step count a repeating-step route drives: the image's declared
/// count, which an override, when given, must spell exactly.
pub fn device_step_count(declared: u32, given: Option<&str>) -> (r: Result<u32, StepsError>)
    ensures
        match given {
            None => r == Ok::<u32, StepsError>(declared),
            Some(text) => match count_spelled(text@, u32::MAX as int) {
                None => r == Err::<u32, StepsError>(StepsError::NotACount),
                Some(v) => if v == declared {
                    r == Ok::<u32, StepsError>(declared)
                } else {
                    r == Err::<u32, StepsError>(StepsError::Contradicts { given: v as u32, declared })
                },
            },
        },
{
    match given {
        None => Ok(declared),
        Some(text) => match parse_count(text, u32::MAX as u64) {
            None => Err(StepsError::NotACount),
            Some(v) => {
                let v = v as u32;
                if v != declared {
                    Err(StepsError::Contradicts { given: v, declared })
                } else {
                    Ok(v)
                }
            },
        },
    }
}

/// The step count of a route: a repeating-step program's declared count
/// (see [`device_step_count`]); a single-run program's default.
pub fn route_step_count(lifetime: WireProgramLifetime, given: Option<&str>) -> (r: Result<u32, StepsError>)
    ensures
        match lifetime {
            WireProgramLifetime::RepeatingStep(declared) => match given {
                None => r == Ok::<u32, StepsError>(declared),
                Some(text) => match count_spelled(text@, u32::MAX as int) {
                    None => r == Err::<u32, StepsError>(StepsError::NotACount),
                    Some(v) => if v == declared {
                        r == Ok::<u32, StepsError>(declared)
                    } else {
                        r == Err::<u32, StepsError>(StepsError::Contradicts { given: v as u32, declared })
                    },
                },
            },
            WireProgramLifetime::SingleRun => r == Ok::<u32, StepsError>(DEFAULT_TRAINING_STEPS),
        },
{
    match lifetime {
        WireProgramLifetime::RepeatingStep(declared) => device_step_count(declared, given),
        WireProgramLifetime::SingleRun => Ok(DEFAULT_TRAINING_STEPS),
    }
}

/// How many times a single-run route runs its launch sequence: once, or
/// the count an override spells; an override that spells no count is
/// refused.
pub fn device_repeat_count(given: Option<&str>) -> (r: Option<usize>)
    ensures
        match given {
            None => r == Some(1usize),
            Some(text) => match count_spelled(text@, usize::MAX as int) {
                Some(v) => r == Some(v as usize),
                None => r is None,
            },
        },
{
    match given {
        None => Some(1),
        Some(text) => match parse_count(text, usize::MAX as u64) {
            Some(v) => Some(v as usize),
            None => None,
        },
    }
}

/// How a session executes a route's program: a repeating-step program
/// initializes its parameters once and then runs that many steps; a
/// single-run program runs its launch sequence that many times.
#[derive(Clone, Copy, Debug, PartialEq, Eq, Structural)]
pub enum ExecutionPlan {
    Steps(u32),
    Runs(usize),
}

/// Why a route executes nothing.
#[derive(Clone, Copy, Debug, PartialEq, Eq, Structural)]
pub enum ExecutionError {
    /// The single-run repeat override spells no count.
    RepeatNotACount,
    /// The route would execute zero iterations.
    ZeroIterations,
}

/// The execution plan of a route's program: the step count for a
/// repeating-step program, the repeat count (see [`device_repeat_count`])
/// for a single-run one, and a refusal when either is zero.
pub fn execution_plan(lifetime: ProgramLifetime, steps: u32, repeat: Option<&str>) -> (r: Result<ExecutionPlan, ExecutionError>)
    ensures
        match lifetime {
            ProgramLifetime::RepeatingStep => if steps == 0 {
                r == Err::<ExecutionPlan, ExecutionError>(ExecutionError::ZeroIterations)
            } else {
                r == Ok::<ExecutionPlan, ExecutionError>(ExecutionPlan::Steps(steps))
            },
            ProgramLifetime::SingleRun => match repeat {
                None => r == Ok::<ExecutionPlan, ExecutionError>(ExecutionPlan::Runs(1)),
                Some(text) => match count_spelled(text@, usize::MAX as int) {
                    None => r == Err::<ExecutionPlan, ExecutionError>(ExecutionError::RepeatNotACount),
                    Some(v) => if v == 0 {
                        r == Err::<ExecutionPlan, ExecutionError>(ExecutionError::ZeroIterations)
                    } else {
                        r == Ok::<ExecutionPlan, ExecutionError>(ExecutionPlan::Runs(v as usize))
                    },
                },
            },
        },
{
    match lifetime {
        ProgramLifetime::RepeatingStep => {
            if steps == 0 {
                Err(ExecutionError::ZeroIterations)
            } else {
                Ok(ExecutionPlan::Steps(steps))
            }
        },
        ProgramLifetime::SingleRun => {
            let count = device_repeat_count(repeat);
            proof {
                if let Some(text) = repeat {
                    if count_spelled(text@, usize::MAX as int) is Some {
                        lemma_decimal_value_nonneg(unsigned_digits(text@));
                    }
                }
            }
            match count {
                None => Err(ExecutionError::RepeatNotACount),
                Some(0) => Err(ExecutionError::ZeroIterations),
                Some(n) => Ok(ExecutionPlan::Runs(n)),
            }
        },
    }
}

// ---------------------------------------------------------------------------
// Receipt lines
// ---------------------------------------------------------------------------

/// Texts joined with `, `.
pub open spec fn joined(items: Seq<Seq<char>>) -> Seq<char>
    decreases items.len(),
{
    if items.len() == 0 {
        Seq::empty()
    } else if items.len() == 1 {
        items[0]
    } else {
        joined(items.drop_last()) + seq![',', ' '] + items.last()
    }
}

/// The backend entry a launch names: its kernel's entry, or `<invalid>` for
/// a kernel index past the kernels.
pub open spec fn launch_entry(d: DeviceDescriptor, kernel_index: u32) -> Seq<char> {
    if kernel_index < d.kernels@.len() {
        d.kernels@[kernel_index as int].entry@
    } else {
        seq!['<', 'i', 'n', 'v', 'a', 'l', 'i', 'd', '>']
    }
}

/// One launch record: `#<position> id=<id> kernel_index=<index>
/// backend_entry=`<entry>``.
pub open spec fn launch_record(position: nat, id: u32, kernel_index: u32, entry: Seq<char>) -> Seq<char> {
    seq!['#'] + decimal(position) + seq![' ', 'i', 'd', '='] + decimal(id as nat)
        + seq![' ', 'k', 'e', 'r', 'n', 'e', 'l', '_', 'i', 'n', 'd', 'e', 'x', '='] + decimal(kernel_index as nat)
        + seq![' ', 'b', 'a', 'c', 'k', 'e', 'n', 'd', '_', 'e', 'n', 't', 'r', 'y', '=', '`'] + entry + seq!['`']
}

pub open spec fn launch_records(d: DeviceDescriptor) -> Seq<Seq<char>> {
    Seq::new(d.launches@.len(), |i: int| launch_record(i as nat, d.launches@[i].id, d.launches@[i].kernel_index,
        launch_entry(d, d.launches@[i].kernel_index)))
}

fn launch_record_text(d: &DeviceDescriptor, i: usize) -> (t: String)
    requires
        i < d.launches@.len(),
    ensures
        t@ == launch_records(*d)[i as int],
{
    proof {
        reveal_strlit("#");
        reveal_strlit(" id=");
        reveal_strlit(" kernel_index=");
        reveal_strlit(" backend_entry=`");
        reveal_strlit("`");
        reveal_strlit("<invalid>");
    }
    let launch = d.launches[i];
    let mut t = owned("#");
    let p = decimal_text(i as u64);
    t.append(p.as_str());
    t.append(" id=");
    let id = decimal_text(launch.id as u64);
    t.append(id.as_str());
    t.append(" kernel_index=");
    let k = decimal_text(launch.kernel_index as u64);
    t.append(k.as_str());
    t.append(" backend_entry=`");
    if (launch.kernel_index as usize) < d.kernels.len() {
        t.append(d.kernels[launch.kernel_index as usize].entry.as_str());
    } else {
        t.append("<invalid>");
    }
    t.append("`");
    assert(t@ =~= launch_records(*d)[i as int]);
    t
}

pub open spec fn launch_order_prefix() -> Seq<char> {
    seq!['d', 'e', 'v', 'i', 'c', 'e', ':', ' ', 'l', 'a', 'u', 'n', 'c', 'h', ' ', 'o', 'r', 'd', 'e', 'r', ':', ' ', '[']
}

/// The line naming every launch the host executes, in the descriptor's
/// order: `device: launch order: [<record>, ...]`.
pub fn host_receipt_launch_order_line(d: &DeviceDescriptor) -> (line: String)
    ensures
        line@ == launch_order_prefix() + joined(launch_records(*d)) + seq![']'],
{
    proof {
        reveal_strlit("device: launch order: [");
        reveal_strlit(", ");
        reveal_strlit("#");
        reveal_strlit(" id=");
        reveal_strlit(" kernel_index=");
        reveal_strlit(" backend_entry=`");
        reveal_strlit("`");
        reveal_strlit("<invalid>");
        reveal_strlit("]");
    }
    let ghost records = launch_records(*d);
    let mut line = owned("device: launch order: [");
    assert(line@ =~= launch_order_prefix());
    let mut i: usize = 0;
    while i < d.launches.len()
        invariant
            i <= d.launches.len(),
            records == launch_records(*d),
            line@ == launch_order_prefix() + joined(records.take(i as int)),
        decreases d.launches.len() - i,
    {
        proof {
            reveal_strlit(", ");
        }
        let ghost before = line@;
        if i > 0 {
            line.append(", ");
        }
        let rec_text = launch_record_text(d, i);
        line.append(rec_text.as_str());
        proof {
            assert(records.take(i + 1).drop_last() =~= records.take(i as int));
            assert(records.take(i + 1).last() == records[i as int]);
            let rec = records[i as int];
            if i == 0 {
                assert(records.take(1) =~= seq![rec]);
                assert(line@ =~= launch_order_prefix() + rec);
            } else {
                assert(line@ =~= before + seq![',', ' '] + rec);
            }
        }
        i = i + 1;
    }
    assert(records.take(records.len() as int) =~= records);
    line.append("]");
    line
}

/// One buffer of the host's declared resource graph, as the host receipt
/// spells it.
#[derive(Debug)]
pub struct ReceiptBuffer {
    pub id: u32,
    pub name: String,
    pub role: String,
    pub lifetime: String,
    pub version: u32,
    pub element_ty: String,
    pub element_count: u64,
}

/// One data-flow edge of the host receipt.
#[derive(Clone, Copy, Debug, PartialEq, Eq, Structural)]
pub struct ReceiptEdge {
    pub producer: u32,
    pub consumer: u32,
    pub buffer_id: u32,
    pub version: u32,
}

pub open spec fn graph_header() -> Seq<char> {
    seq!['d', 'e', 'v', 'i', 'c', 'e', ':', ' ', 'd', 'e', 'c', 'l', 'a', 'r', 'e', 'd', ' ', 'r', 'e', 's', 'o', 'u', 'r', 'c', 'e',
        ' ', 'g', 'r', 'a', 'p', 'h', ' ', '(', 'A', '1', '0', ',', ' ', 'h', 'o', 's', 't', ' ', 'r', 'e', 'c', 'e', 'i', 'p', 't', ')', ':']
}

pub open spec fn indent() -> Seq<char> {
    seq!['d', 'e', 'v', 'i', 'c', 'e', ':', ' ', ' ', ' ']
}

/// `device:   buffer <id> `<name>` <role> <lifetime> version <v> (<ty>[<n>])`.
pub open spec fn buffer_line(b: ReceiptBuffer) -> Seq<char> {
    indent() + seq!['b', 'u', 'f', 'f', 'e', 'r', ' '] + decimal(b.id as nat) + seq![' ', '`'] + b.name@ + seq!['`', ' '] + b.role@
        + seq![' '] + b.lifetime@ + seq![' ', 'v', 'e', 'r', 's', 'i', 'o', 'n', ' '] + decimal(b.version as nat) + seq![' ', '(']
        + b.element_ty@ + seq!['['] + decimal(b.element_count as nat) + seq![']', ')']
}

/// `device:   data-flow <producer> -> <consumer> via buffer <id> version <v>`.
pub open spec fn edge_line(e: ReceiptEdge) -> Seq<char> {
    indent() + seq!['d', 'a', 't', 'a', '-', 'f', 'l', 'o', 'w', ' '] + decimal(e.producer as nat) + seq![' ', '-', '>', ' ']
        + decimal(e.consumer as nat) + seq![' ', 'v', 'i', 'a', ' ', 'b', 'u', 'f', 'f', 'e', 'r', ' '] + decimal(e.buffer_id as nat)
        + seq![' ', 'v', 'e', 'r', 's', 'i', 'o', 'n', ' '] + decimal(e.version as nat)
}

pub open spec fn no_edges_line() -> Seq<char> {
    indent() + seq!['d', 'a', 't', 'a', '-', 'f', 'l', 'o', 'w', ' ', 'e', 'd', 'g', 'e', 's', ':', ' ', 'n', 'o', 'n', 'e']
}

/// The lines of the host's declared resource graph: a header, one line per
/// buffer, then one line per data-flow edge, or a line saying there is none.
pub open spec fn graph_lines(buffers: Seq<ReceiptBuffer>, edges: Seq<ReceiptEdge>) -> Seq<Seq<char>> {
    seq![graph_header()] + buffers.map_values(|b: ReceiptBuffer| buffer_line(b)) + if edges.len() == 0 {
        seq![no_edges_line()]
    } else {
        edges.map_values(|e: ReceiptEdge| edge_line(e))
    }
}

/// The receipt lines of the declared resource graph (see [`graph_lines`]).
#[verifier::rlimit(40)]
pub fn host_receipt_graph_lines(buffers: &Vec<ReceiptBuffer>, edges: &Vec<ReceiptEdge>) -> (lines: Vec<String>)
    ensures
        lines@.len() == graph_lines(buffers@, edges@).len(),
        forall|i: int| 0 <= i < lines@.len() ==> (#[trigger] lines@[i])@ == graph_lines(buffers@, edges@)[i],
{
    proof {
        reveal_strlit("device: declared resource graph (A10, host receipt):");
        reveal_strlit("device:   buffer ");
        reveal_strlit(" `");
        reveal_strlit("` ");
        reveal_strlit(" ");
        reveal_strlit(" version ");
        reveal_strlit(" (");
        reveal_strlit("[");
        reveal_strlit("])");
        reveal_strlit("device:   data-flow edges: none");
        reveal_strlit("device:   data-flow ");
        reveal_strlit(" -> ");
        reveal_strlit(" via buffer ");
    }
    let ghost all = graph_lines(buffers@, edges@);
    let mut lines: Vec<String> = Vec::new();
    lines.push(owned("device: declared resource graph (A10, host receipt):"));
    assert(lines@[0]@ =~= graph_header());
    let mut i: usize = 0;
    while i < buffers.len()
        invariant
            i <= buffers.len(),
            all == graph_lines(buffers@, edges@),
            lines@.len() == 1 + i,
            forall|k: int| 0 <= k < lines@.len() ==> (#[trigger] lines@[k])@ == all[k],
        decreases buffers.len() - i,
    {
        proof {
            reveal_strlit("device:   buffer ");
            reveal_strlit(" `");
            reveal_strlit("` ");
            reveal_strlit(" ");
            reveal_strlit(" version ");
            reveal_strlit(" (");
            reveal_strlit("[");
            reveal_strlit("])");
        }
        let b = &buffers[i];
        let mut line = owned("device:   buffer ");
        let id = decimal_text(b.id as u64);
        line.append(id.as_str());
        line.append(" `");
        line.append(b.name.as_str());
        line.append("` ");
        line.append(b.role.as_str());
        line.append(" ");
        line.append(b.lifetime.as_str());
        line.append(" version ");
        let v = decimal_text(b.version as u64);
        line.append(v.as_str());
        line.append(" (");
        line.append(b.element_ty.as_str());
        line.append("[");
        let n = decimal_text(b.element_count);
        line.append(n.as_str());
        line.append("])");
        assert(line@ =~= buffer_line(*b));
        assert(all[1 + i] == buffer_line(buffers@[i as int]));
        lines.push(line);
        i = i + 1;
    }
    if edges.len() == 0 {
        lines.push(owned("device:   data-flow edges: none"));
        assert(lines@.last()@ =~= no_edges_line());
    } else {
        let mut j: usize = 0;
        while j < edges.len()
            invariant
                j <= edges.len(),
                edges.len() > 0,
                all == graph_lines(buffers@, edges@),
                lines@.len() == 1 + buffers.len() + j,
                forall|k: int| 0 <= k < lines@.len() ==> (#[trigger] lines@[k])@ == all[k],
            decreases edges.len() - j,
        {
            proof {
                reveal_strlit("device:   data-flow ");
                reveal_strlit(" -> ");
                reveal_strlit(" via buffer ");
                reveal_strlit(" version ");
            }
            let e = edges[j];
            let mut line = owned("device:   data-flow ");
            let p = decimal_text(e.producer as u64);
            line.append(p.as_str());
            line.append(" -> ");
            let c = decimal_text(e.consumer as u64);
            line.append(c.as_str());
            line.append(" via buffer ");
            let b = decimal_text(e.buffer_id as u64);
            line.append(b.as_str());
            line.append(" version ");
            let v = decimal_text(e.version as u64);
            line.append(v.as_str());
            assert(line@ =~= edge_line(e));
            assert(all[1 + buffers.len() + j] == edge_line(edges@[j as int]));
            lines.push(line);
            j = j + 1;
        }
    }
    lines
}

} // verus!
