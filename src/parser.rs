//! Trace normalisation: from a raw trace document to the total gas used and
//! the ordered list of execution steps.
use vstd::prelude::*;
use vstd::string::*;

use crate::hostio::{cap, extract_hostio_events, host_gas, kind_count, HostIoStats, HostIoType};
use crate::json::{field, get_member, lookup, JsonNumber, JsonValue};
use crate::text::{
    decimal, digit_value, hex_text, lemma_decimal_reads_back, lemma_hex_reads_back,
    parse_unsigned, starts_with_text, unsigned_body, unsigned_value,
};

verus! {

/// One instruction-level record of the trace.
#[derive(Debug, Clone)]
pub struct ExecutionStep {
    /// Program counter.
    pub pc: u64,
    /// Gas remaining at this step.
    pub gas: u64,
    /// Gas cost of this step.
    pub gas_cost: u64,
    /// Operation mnemonic, if the trace gives one.
    pub op: Option<String>,
    /// Call depth.
    pub depth: u32,
    /// Resolved function name, present with debug symbols.
    pub function: Option<String>,
}

/// An execution step with its texts as character sequences.
pub struct StepView {
    pub pc: u64,
    pub gas: u64,
    pub gas_cost: u64,
    pub op: Option<Seq<char>>,
    pub depth: u32,
    pub function: Option<Seq<char>>,
}

pub open spec fn text_view(t: Option<String>) -> Option<Seq<char>> {
    match t {
        Some(s) => Some(s@),
        None => None,
    }
}

impl View for ExecutionStep {
    type V = StepView;

    open spec fn view(&self) -> StepView {
        StepView {
            pc: self.pc,
            gas: self.gas,
            gas_cost: self.gas_cost,
            op: text_view(self.op),
            depth: self.depth,
            function: text_view(self.function),
        }
    }
}

/// The views of a list of steps.
pub open spec fn step_views(s: Seq<ExecutionStep>) -> Seq<StepView> {
    s.map_values(|e: ExecutionStep| e@)
}

/// Why a trace could not be normalised.
#[derive(Debug)]
pub enum ParseError {
    /// The input is structurally unrecognisable or wholly unparseable.
    InvalidFormat(String),
    /// A profile carries a schema version that this library does not read.
    UnsupportedVersion(String),
}

/// The normalised unit of work: steps in execution order, never reordered.
#[derive(Debug)]
pub struct ParsedTrace {
    pub transaction_hash: String,
    /// Total gas used; 0 where the document gives none (see `extract_total_gas`).
    pub total_gas_used: u64,
    pub execution_steps: Vec<ExecutionStep>,
    pub hostio_stats: HostIoStats,
}

// ---------------------------------------------------------------------------
// The step record
// ---------------------------------------------------------------------------

/// A counter field: absent means 0, else a non-negative integer that fits.
pub open spec fn count_value(f: Option<JsonValue>) -> Option<u64> {
    match f {
        None => Some(0u64),
        Some(JsonValue::Number(JsonNumber::Unsigned(u))) => Some(u),
        _ => None,
    }
}

/// The depth field: absent means 0, else an integer that fits in `u32`.
pub open spec fn depth_value(f: Option<JsonValue>) -> Option<u32> {
    match f {
        None => Some(0u32),
        Some(JsonValue::Number(JsonNumber::Unsigned(u))) => if u <= u32::MAX {
            Some(u as u32)
        } else {
            None
        },
        _ => None,
    }
}

/// A name field: absent or null means no name, else a string.
pub open spec fn name_value(f: Option<JsonValue>) -> Option<Option<Seq<char>>> {
    match f {
        None => Some(None),
        Some(JsonValue::Null) => Some(None),
        Some(JsonValue::Str(s)) => Some(Some(s@)),
        _ => None,
    }
}

/// The gas cost, spelled `gas_cost` or `gasCost`; a record with both is invalid.
pub open spec fn gas_cost_value(v: JsonValue) -> Option<u64> {
    let a = field(v, "gas_cost"@);
    let b = field(v, "gasCost"@);
    if a is Some && b is Some {
        None
    } else if a is Some {
        count_value(a)
    } else {
        count_value(b)
    }
}

/// The step that a record denotes, if it is a valid one: an object whose
/// recognised fields hold values of the right kind. Other members are ignored.
pub open spec fn step_of(v: JsonValue) -> Option<StepView> {
    let pc = count_value(field(v, "pc"@));
    let gas = count_value(field(v, "gas"@));
    let cost = gas_cost_value(v);
    let op = name_value(field(v, "op"@));
    let depth = depth_value(field(v, "depth"@));
    let function = name_value(field(v, "function"@));
    if v is Object && pc is Some && gas is Some && cost is Some && op is Some && depth is Some
        && function is Some {
        Some(
            StepView {
                pc: pc.unwrap(),
                gas: gas.unwrap(),
                gas_cost: cost.unwrap(),
                op: op.unwrap(),
                depth: depth.unwrap(),
                function: function.unwrap(),
            },
        )
    } else {
        None
    }
}

/// The two spellings of the gas cost are read alike: a record whose cost is
/// under `gasCost` (and not `gas_cost`) denotes the same step as one whose
/// other fields agree and whose cost is under `gas_cost` (and not `gasCost`).
pub proof fn lemma_gas_cost_spellings_agree(v: JsonValue, w: JsonValue)
    requires
        v is Object,
        w is Object,
        field(v, "pc"@) == field(w, "pc"@),
        field(v, "gas"@) == field(w, "gas"@),
        field(v, "op"@) == field(w, "op"@),
        field(v, "depth"@) == field(w, "depth"@),
        field(v, "function"@) == field(w, "function"@),
        field(v, "gas_cost"@) is None,
        field(w, "gasCost"@) is None,
        field(v, "gasCost"@) == field(w, "gas_cost"@),
    ensures
        step_of(v) == step_of(w),
{
}

/// The valid records of `items`, in order; the others are dropped.
pub open spec fn valid_steps(items: Seq<JsonValue>) -> Seq<StepView>
    decreases items.len(),
{
    if items.len() == 0 {
        Seq::empty()
    } else {
        let p = valid_steps(items.drop_last());
        match step_of(items.last()) {
            Some(s) => p.push(s),
            None => p,
        }
    }
}

/// The step with every field at its default.
pub open spec fn default_step() -> StepView {
    StepView { pc: 0, gas: 0, gas_cost: 0, op: None, depth: 0, function: None }
}

/// What makes a record a step: anything but an object is dropped (a number,
/// a text, null); an object with no recognised member is a step with every
/// field at its default; a depth that is not an integer fitting in `u32`
/// (such as a text) makes the record invalid.
pub proof fn lemma_step_record_rules(v: JsonValue)
    ensures
        !(v is Object) ==> step_of(v) is None,
        match v {
            JsonValue::Object(m) => m@.len() == 0 ==> step_of(v) == Some(default_step()),
            _ => true,
        },
        depth_value(field(v, "depth"@)) is None ==> step_of(v) is None,
        match field(v, "depth"@) {
            Some(JsonValue::Str(_)) => step_of(v) is None,
            _ => true,
        },
{
}

/// A non-empty list of which no record is valid.
pub open spec fn all_malformed(items: Seq<JsonValue>) -> bool {
    items.len() > 0 && valid_steps(items).len() == 0
}

fn count_member(members: &Vec<(String, JsonValue)>, key: &str) -> (r: Option<u64>)
    ensures
        r == count_value(lookup(members@, key@)),
{
    match get_member(members, key) {
        None => Some(0),
        Some(v) => match v {
            JsonValue::Number(JsonNumber::Unsigned(u)) => Some(*u),
            _ => None,
        },
    }
}

fn depth_member(members: &Vec<(String, JsonValue)>, key: &str) -> (r: Option<u32>)
    ensures
        r == depth_value(lookup(members@, key@)),
{
    match get_member(members, key) {
        None => Some(0),
        Some(v) => match v {
            JsonValue::Number(JsonNumber::Unsigned(u)) => if *u <= 0xffff_ffffu64 {
                Some(*u as u32)
            } else {
                None
            },
            _ => None,
        },
    }
}

fn name_member(members: &Vec<(String, JsonValue)>, key: &str) -> (r: Option<Option<String>>)
    ensures
        match r {
            Some(t) => name_value(lookup(members@, key@)) == Some(text_view(t)),
            None => name_value(lookup(members@, key@)) is None,
        },
{
    match get_member(members, key) {
        None => Some(None),
        Some(v) => match v {
            JsonValue::Null => Some(None),
            JsonValue::Str(s) => Some(Some(s.clone())),
            _ => None,
        },
    }
}

/// Reads one step record; `None` where it is not a valid step.
pub fn parse_step(v: &JsonValue) -> (r: Option<ExecutionStep>)
    ensures
        match r {
            Some(s) => step_of(*v) == Some(s@),
            None => step_of(*v) is None,
        },
{
    let members = match v {
        JsonValue::Object(m) => m,
        _ => {
            return None;
        },
    };
    let pc = match count_member(members, "pc") {
        Some(x) => x,
        None => {
            return None;
        },
    };
    let gas = match count_member(members, "gas") {
        Some(x) => x,
        None => {
            return None;
        },
    };
    let snake = get_member(members, "gas_cost").is_some();
    let camel = get_member(members, "gasCost").is_some();
    if snake && camel {
        return None;
    }
    let cost_found = if snake {
        count_member(members, "gas_cost")
    } else {
        count_member(members, "gasCost")
    };
    let gas_cost = match cost_found {
        Some(x) => x,
        None => {
            return None;
        },
    };
    let op = match name_member(members, "op") {
        Some(x) => x,
        None => {
            return None;
        },
    };
    let depth = match depth_member(members, "depth") {
        Some(x) => x,
        None => {
            return None;
        },
    };
    let function = match name_member(members, "function") {
        Some(x) => x,
        None => {
            return None;
        },
    };
    Some(ExecutionStep { pc, gas, gas_cost, op, depth, function })
}

/// Reads a list of step records, dropping the invalid ones. Fails when the
/// list is non-empty and no record in it is valid.
pub fn parse_steps_array(steps_array: &Vec<JsonValue>) -> (r: Result<Vec<ExecutionStep>, ParseError>)
    ensures
        match r {
            Ok(steps) => !all_malformed(steps_array@) && step_views(steps@) == valid_steps(
                steps_array@,
            ),
            Err(e) => all_malformed(steps_array@) && e is InvalidFormat,
        },
{
    let mut steps: Vec<ExecutionStep> = Vec::new();
    let mut i: usize = 0;
    while i < steps_array.len()
        invariant
            0 <= i <= steps_array@.len(),
            step_views(steps@) == valid_steps(steps_array@.take(i as int)),
        decreases steps_array@.len() - i,
    {
        let ghost pre = steps_array@.take(i as int);
        let ghost next = steps_array@.take(i + 1);
        assert(next.drop_last() =~= pre);
        let ghost before = steps@;
        match parse_step(&steps_array[i]) {
            Some(s) => {
                steps.push(s);
                assert(step_views(steps@) =~= step_views(before).push(s@));
            },
            None => {},
        }
        i = i + 1;
    }
    assert(steps_array@.take(steps_array@.len() as int) =~= steps_array@);
    if steps.len() == 0 && steps_array.len() > 0 {
        let msg = String::from_str("all execution steps failed to parse");
        return Err(ParseError::InvalidFormat(msg));
    }
    Ok(steps)
}

// ---------------------------------------------------------------------------
// Total gas
// ---------------------------------------------------------------------------

/// What a gas text denotes: hexadecimal after a `0x` prefix, else decimal.
pub open spec fn gas_text_value(s: Seq<char>) -> Option<u64> {
    if s.len() >= 2 && s.take(2) == "0x"@ {
        unsigned_value(s.skip(2), 16)
    } else {
        unsigned_value(s, 10)
    }
}

/// Reads a gas figure from text: hexadecimal with a `0x` prefix, else decimal.
pub fn parse_gas_value(value: &str) -> (r: Result<u64, ParseError>)
    ensures
        match r {
            Ok(n) => gas_text_value(value@) == Some(n),
            Err(e) => gas_text_value(value@) is None && e is InvalidFormat,
        },
{
    proof {
        reveal_strlit("0x");
    }
    let parsed = if starts_with_text(value, "0x") {
        let n = value.unicode_len();
        parse_unsigned(value.substring_char(2, n), 16)
    } else {
        parse_unsigned(value, 10)
    };
    match parsed {
        Some(g) => Ok(g),
        None => {
            let mut msg = String::from_str("invalid gas value: ");
            msg.append(value);
            Err(ParseError::InvalidFormat(msg))
        },
    }
}

/// A gas figure written in hexadecimal after `0x`, or in decimal, reads back
/// as the same number.
pub proof fn lemma_hex_and_decimal_gas_agree(n: u64)
    ensures
        gas_text_value("0x"@ + hex_text(n as nat)) == Some(n),
        gas_text_value(decimal(n as nat)) == Some(n),
{
    reveal_strlit("0x");
    lemma_hex_reads_back(n as nat);
    lemma_decimal_reads_back(n as nat);
    let h = hex_text(n as nat);
    let hs = "0x"@ + h;
    assert(hs.take(2) =~= "0x"@);
    assert(hs.skip(2) =~= h);
    assert(0 <= digit_value(h[0]) < 16);
    assert(unsigned_body(h) == h);
    let d = decimal(n as nat);
    assert(0 <= digit_value(d[0]) < 10);
    assert(unsigned_body(d) == d);
    if d.len() >= 2 && d.take(2) == "0x"@ {
        assert(d[1] == d.take(2)[1]);
        assert(0 <= digit_value(d[1]) < 10);
    }
}

/// The gas figure a member holds, if it holds one: an integer, or a text that
/// `gas_text_value` reads.
pub open spec fn gas_of(f: Option<JsonValue>) -> Option<u64> {
    match f {
        Some(JsonValue::Number(JsonNumber::Unsigned(u))) => Some(u),
        Some(JsonValue::Str(s)) => gas_text_value(s@),
        _ => None,
    }
}

/// The total gas: the first of `gasUsed`, `gas_used`, `totalGas`, `total_gas`
/// that holds a gas figure; 0 when none does.
pub open spec fn total_gas_of(members: Seq<(String, JsonValue)>) -> u64 {
    let a = gas_of(lookup(members, "gasUsed"@));
    let b = gas_of(lookup(members, "gas_used"@));
    let c = gas_of(lookup(members, "totalGas"@));
    let d = gas_of(lookup(members, "total_gas"@));
    if a is Some {
        a.unwrap()
    } else if b is Some {
        b.unwrap()
    } else if c is Some {
        c.unwrap()
    } else if d is Some {
        d.unwrap()
    } else {
        0
    }
}

fn gas_member(members: &Vec<(String, JsonValue)>, key: &str) -> (r: Option<u64>)
    ensures
        r == gas_of(lookup(members@, key@)),
{
    match get_member(members, key) {
        Some(v) => match v {
            JsonValue::Number(JsonNumber::Unsigned(u)) => Some(*u),
            JsonValue::Str(s) => match parse_gas_value(s.as_str()) {
                Ok(g) => Some(g),
                Err(_) => None,
            },
            _ => None,
        },
        None => None,
    }
}

/// The total gas used that a trace object states. Where it states none, the
/// result is 0: the figure is then left for a consumer to derive from the
/// steps, and this library does not fill it in.
pub fn extract_total_gas(trace_obj: &Vec<(String, JsonValue)>) -> (r: Result<u64, ParseError>)
    ensures
        r == Ok::<u64, ParseError>(total_gas_of(trace_obj@)),
{
    if let Some(g) = gas_member(trace_obj, "gasUsed") {
        return Ok(g);
    }
    if let Some(g) = gas_member(trace_obj, "gas_used") {
        return Ok(g);
    }
    if let Some(g) = gas_member(trace_obj, "totalGas") {
        return Ok(g);
    }
    if let Some(g) = gas_member(trace_obj, "total_gas") {
        return Ok(g);
    }
    Ok(0)
}

// ---------------------------------------------------------------------------
// The step list and the whole trace
// ---------------------------------------------------------------------------

pub open spec fn array_items(f: Option<JsonValue>) -> Option<Seq<JsonValue>> {
    match f {
        Some(JsonValue::Array(a)) => Some(a@),
        _ => None,
    }
}

/// The step list of a trace object: the first of `structLogs`, `struct_logs`,
/// `steps`, `trace` that holds an array.
pub open spec fn step_list(members: Seq<(String, JsonValue)>) -> Option<Seq<JsonValue>> {
    let a = array_items(lookup(members, "structLogs"@));
    let b = array_items(lookup(members, "struct_logs"@));
    let c = array_items(lookup(members, "steps"@));
    let d = array_items(lookup(members, "trace"@));
    if a is Some {
        a
    } else if b is Some {
        b
    } else if c is Some {
        c
    } else {
        d
    }
}

fn array_member<'a>(members: &'a Vec<(String, JsonValue)>, key: &str) -> (r: Option<&'a Vec<JsonValue>>)
    ensures
        match r {
            Some(a) => array_items(lookup(members@, key@)) == Some(a@),
            None => array_items(lookup(members@, key@)) is None,
        },
{
    match get_member(members, key) {
        Some(v) => match v {
            JsonValue::Array(a) => Some(a),
            _ => None,
        },
        None => None,
    }
}

/// Reads the steps of a trace object. A trace without a step list has no
/// steps.
pub fn extract_execution_steps(trace_obj: &Vec<(String, JsonValue)>) -> (r: Result<
    Vec<ExecutionStep>,
    ParseError,
>)
    ensures
        match step_list(trace_obj@) {
            Some(items) => match r {
                Ok(steps) => !all_malformed(items) && step_views(steps@) == valid_steps(items),
                Err(e) => all_malformed(items) && e is InvalidFormat,
            },
            None => r is Ok && r.unwrap()@.len() == 0,
        },
{
    if let Some(a) = array_member(trace_obj, "structLogs") {
        return parse_steps_array(a);
    }
    if let Some(a) = array_member(trace_obj, "struct_logs") {
        return parse_steps_array(a);
    }
    if let Some(a) = array_member(trace_obj, "steps") {
        return parse_steps_array(a);
    }
    if let Some(a) = array_member(trace_obj, "trace") {
        return parse_steps_array(a);
    }
    Ok(Vec::new())
}

/// The step records of a raw trace: the step list of an object (none if it
/// has none), or a bare array itself.
pub open spec fn trace_records(raw: JsonValue) -> Seq<JsonValue> {
    match raw {
        JsonValue::Object(m) => match step_list(m@) {
            Some(items) => items,
            None => Seq::empty(),
        },
        JsonValue::Array(a) => a@,
        _ => Seq::empty(),
    }
}

/// The total gas of a raw trace: what an object states; 0 for a bare array.
pub open spec fn trace_total_gas(raw: JsonValue) -> u64 {
    match raw {
        JsonValue::Object(m) => total_gas_of(m@),
        _ => 0,
    }
}

/// Whether a raw trace has one of the shapes that are read: an object that
/// names a gas field or a step-list field, or a bare array of step records.
pub open spec fn trace_shape_ok(raw: JsonValue) -> bool {
    match raw {
        JsonValue::Object(m) => has_expected_fields(m@),
        JsonValue::Array(_) => true,
        _ => false,
    }
}

/// Normalises a raw trace. Fails with `InvalidFormat` when `raw_trace` is
/// neither an object nor an array, when it is an object that names neither a
/// gas field nor a step-list field (the check of `validate_trace_format`), or
/// when its step records are all malformed.
pub fn parse_trace(tx_hash: &str, raw_trace: &JsonValue) -> (r: Result<ParsedTrace, ParseError>)
    ensures
        match r {
            Ok(t) => {
                &&& trace_shape_ok(*raw_trace)
                &&& !all_malformed(trace_records(*raw_trace))
                &&& t.transaction_hash@ == tx_hash@
                &&& t.total_gas_used == trace_total_gas(*raw_trace)
                &&& step_views(t.execution_steps@) == valid_steps(trace_records(*raw_trace))
                &&& t.hostio_stats.wf()
                &&& forall|k: HostIoType| #[trigger]
                    t.hostio_stats.count_of(k) == kind_count(
                        valid_steps(trace_records(*raw_trace)),
                        k,
                    )
                &&& t.hostio_stats.gas() == cap(host_gas(valid_steps(trace_records(*raw_trace))))
            },
            Err(e) => {
                &&& e is InvalidFormat
                &&& !trace_shape_ok(*raw_trace) || all_malformed(trace_records(*raw_trace))
            },
        },
{
    let (total_gas_used, execution_steps) = match raw_trace {
        JsonValue::Object(members) => {
            if let Err(e) = validate_trace_format(raw_trace) {
                return Err(e);
            }
            let g = extract_total_gas(members);
            let total = match g {
                Ok(x) => x,
                Err(e) => {
                    return Err(e);
                },
            };
            match extract_execution_steps(members) {
                Ok(s) => (total, s),
                Err(e) => {
                    return Err(e);
                },
            }
        },
        JsonValue::Array(items) => match parse_steps_array(items) {
            Ok(s) => (0u64, s),
            Err(e) => {
                return Err(e);
            },
        },
        _ => {
            let msg = String::from_str("trace must be a JSON object or array");
            return Err(ParseError::InvalidFormat(msg));
        },
    };
    let hostio_stats = extract_hostio_events(&execution_steps);
    Ok(
        ParsedTrace {
            transaction_hash: String::from_str(tx_hash),
            total_gas_used,
            execution_steps,
            hostio_stats,
        },
    )
}

/// Whether a member named `key` is present.
fn has_member(members: &Vec<(String, JsonValue)>, key: &str) -> (r: bool)
    ensures
        r == lookup(members@, key@) is Some,
{
    get_member(members, key).is_some()
}

/// A trace object names a gas field or a step-list field.
pub open spec fn has_expected_fields(members: Seq<(String, JsonValue)>) -> bool {
    lookup(members, "gasUsed"@) is Some || lookup(members, "gas_used"@) is Some || lookup(
        members,
        "totalGas"@,
    ) is Some || lookup(members, "total_gas"@) is Some || lookup(members, "structLogs"@) is Some
        || lookup(members, "struct_logs"@) is Some || lookup(members, "steps"@) is Some || lookup(
        members,
        "trace"@,
    ) is Some
}

/// A quick check that a trace can be read: it must be an object that names a
/// gas field or a step-list field.
pub fn validate_trace_format(raw_trace: &JsonValue) -> (r: Result<(), ParseError>)
    ensures
        match r {
            Ok(_) => match *raw_trace {
                JsonValue::Object(m) => has_expected_fields(m@),
                _ => false,
            },
            Err(e) => e is InvalidFormat && match *raw_trace {
                JsonValue::Object(m) => !has_expected_fields(m@),
                _ => true,
            },
        },
{
    let members = match raw_trace {
        JsonValue::Object(m) => m,
        _ => {
            return Err(ParseError::InvalidFormat(String::from_str("expected a JSON object")));
        },
    };
    let has_gas = has_member(members, "gasUsed") || has_member(members, "gas_used") || has_member(
        members,
        "totalGas",
    ) || has_member(members, "total_gas");
    let has_steps = has_member(members, "structLogs") || has_member(members, "struct_logs")
        || has_member(members, "steps") || has_member(members, "trace");
    if !has_gas && !has_steps {
        return Err(
            ParseError::InvalidFormat(
                String::from_str("trace names neither a gas field nor a step list"),
            ),
        );
    }
    Ok(())
}

} // verus!
