//! Host interactions: the operations that cross from contract execution into
//! the surrounding platform, classified into a closed set of kinds and counted.
use vstd::prelude::*;
use vstd::string::*;

use crate::parser::{step_views, ExecutionStep, StepView};
use crate::text::same_text;

verus! {

/// The kinds of host interaction.
#[derive(Debug, Clone, Copy, PartialEq, Eq, Structural)]
pub enum HostIoType {
    StorageLoad,
    StorageStore,
    Call,
    StaticCall,
    DelegateCall,
    Create,
    Log,
    SelfDestruct,
    AccountBalance,
    BlockHash,
    Other,
}

/// How many kinds there are.
pub const HOSTIO_KINDS: usize = 11;

/// The position of a kind in the fixed order of kinds.
pub open spec fn kind_index(t: HostIoType) -> int {
    match t {
        HostIoType::StorageLoad => 0,
        HostIoType::StorageStore => 1,
        HostIoType::Call => 2,
        HostIoType::StaticCall => 3,
        HostIoType::DelegateCall => 4,
        HostIoType::Create => 5,
        HostIoType::Log => 6,
        HostIoType::SelfDestruct => 7,
        HostIoType::AccountBalance => 8,
        HostIoType::BlockHash => 9,
        HostIoType::Other => 10,
    }
}

/// The kind at position `i` of the fixed order.
pub open spec fn kind_at(i: int) -> HostIoType {
    if i == 0 {
        HostIoType::StorageLoad
    } else if i == 1 {
        HostIoType::StorageStore
    } else if i == 2 {
        HostIoType::Call
    } else if i == 3 {
        HostIoType::StaticCall
    } else if i == 4 {
        HostIoType::DelegateCall
    } else if i == 5 {
        HostIoType::Create
    } else if i == 6 {
        HostIoType::Log
    } else if i == 7 {
        HostIoType::SelfDestruct
    } else if i == 8 {
        HostIoType::AccountBalance
    } else if i == 9 {
        HostIoType::BlockHash
    } else {
        HostIoType::Other
    }
}

/// The name of a kind, as it appears in paths and in the profile.
pub open spec fn kind_name(t: HostIoType) -> Seq<char> {
    match t {
        HostIoType::StorageLoad => "StorageLoad"@,
        HostIoType::StorageStore => "StorageStore"@,
        HostIoType::Call => "Call"@,
        HostIoType::StaticCall => "StaticCall"@,
        HostIoType::DelegateCall => "DelegateCall"@,
        HostIoType::Create => "Create"@,
        HostIoType::Log => "Log"@,
        HostIoType::SelfDestruct => "SelfDestruct"@,
        HostIoType::AccountBalance => "AccountBalance"@,
        HostIoType::BlockHash => "BlockHash"@,
        HostIoType::Other => "Other"@,
    }
}

/// The kind of host interaction that an operation name stands for, if any.
/// Both the EVM mnemonics and the Stylus host function names are known.
pub open spec fn classify(op: Seq<char>) -> Option<HostIoType> {
    if op == "SLOAD"@ || op == "storage_load_bytes32"@ {
        Some(HostIoType::StorageLoad)
    } else if op == "SSTORE"@ || op == "storage_store_bytes32"@ || op == "storage_cache_bytes32"@ {
        Some(HostIoType::StorageStore)
    } else if op == "CALL"@ || op == "call_contract"@ {
        Some(HostIoType::Call)
    } else if op == "STATICCALL"@ || op == "static_call_contract"@ {
        Some(HostIoType::StaticCall)
    } else if op == "DELEGATECALL"@ || op == "delegate_call_contract"@ {
        Some(HostIoType::DelegateCall)
    } else if op == "CREATE"@ || op == "CREATE2"@ || op == "create1"@ || op == "create2"@ {
        Some(HostIoType::Create)
    } else if op == "LOG0"@ || op == "LOG1"@ || op == "LOG2"@ || op == "LOG3"@ || op == "LOG4"@
        || op == "emit_log"@ {
        Some(HostIoType::Log)
    } else if op == "SELFDESTRUCT"@ {
        Some(HostIoType::SelfDestruct)
    } else if op == "BALANCE"@ || op == "account_balance"@ {
        Some(HostIoType::AccountBalance)
    } else if op == "BLOCKHASH"@ || op == "block_hash"@ {
        Some(HostIoType::BlockHash)
    } else if op == "read_args"@ || op == "write_result"@ || op == "msg_sender"@ || op
        == "msg_value"@ || op == "tx_origin"@ || op == "account_code"@ || op
        == "account_codehash"@ || op == "evm_gas_left"@ {
        Some(HostIoType::Other)
    } else {
        None
    }
}

/// The host interaction that a step performs, if any: its operation mnemonic
/// decides.
pub open spec fn step_kind(s: StepView) -> Option<HostIoType> {
    match s.op {
        Some(op) => classify(op),
        None => None,
    }
}

/// How many of `steps` are host interactions of kind `t`.
pub open spec fn kind_count(steps: Seq<StepView>, t: HostIoType) -> int
    decreases steps.len(),
{
    if steps.len() == 0 {
        0
    } else {
        kind_count(steps.drop_last(), t) + if step_kind(steps.last()) == Some(t) {
            1int
        } else {
            0int
        }
    }
}

/// The gas of the steps that are host interactions.
pub open spec fn host_gas(steps: Seq<StepView>) -> int
    decreases steps.len(),
{
    if steps.len() == 0 {
        0
    } else {
        host_gas(steps.drop_last()) + if step_kind(steps.last()) is Some {
            steps.last().gas_cost as int
        } else {
            0int
        }
    }
}

/// The sum of a sequence of counts.
pub open spec fn sum_counts(s: Seq<u64>) -> int
    decreases s.len(),
{
    if s.len() == 0 {
        0
    } else {
        sum_counts(s.drop_last()) + s.last()
    }
}

/// `a` capped at `u64::MAX`.
pub open spec fn cap(a: int) -> u64 {
    if a > u64::MAX {
        u64::MAX
    } else {
        a as u64
    }
}

proof fn lemma_sum_counts_bump(s: Seq<u64>, i: int)
    requires
        0 <= i < s.len(),
        s[i] < u64::MAX,
    ensures
        sum_counts(s.update(i, (s[i] + 1) as u64)) == sum_counts(s) + 1,
    decreases s.len(),
{
    let t = s.update(i, (s[i] + 1) as u64);
    if i == s.len() - 1 {
        assert(t.drop_last() =~= s.drop_last());
    } else {
        assert(t.drop_last() =~= s.drop_last().update(i, (s[i] + 1) as u64));
        lemma_sum_counts_bump(s.drop_last(), i);
    }
}

/// Per-kind counts of host interactions, with their total and the gas they used.
#[derive(Debug)]
pub struct HostIoStats {
    counts: Vec<u64>,
    calls: u64,
    gas: u64,
}

impl HostIoStats {
    /// Counts by kind, in the fixed order of kinds.
    pub closed spec fn counts(&self) -> Seq<u64> {
        self.counts@
    }

    /// The number of host interactions.
    pub closed spec fn calls(&self) -> u64 {
        self.calls
    }

    /// The gas the host interactions used.
    pub closed spec fn gas(&self) -> u64 {
        self.gas
    }

    /// One count per kind, and the total is their sum.
    pub open spec fn wf(&self) -> bool {
        &&& self.counts().len() == HOSTIO_KINDS
        &&& self.calls() as int == sum_counts(self.counts())
    }

    /// The count for kind `t`.
    pub open spec fn count_of(&self, t: HostIoType) -> u64 {
        self.counts()[kind_index(t)]
    }

    /// No host interaction at all.
    pub fn new() -> (r: Self)
        ensures
            r.wf(),
            r.calls() == 0,
            r.gas() == 0,
            forall|t: HostIoType| #[trigger] r.count_of(t) == 0,
    {
        let mut counts: Vec<u64> = Vec::new();
        let mut i: usize = 0;
        while i < HOSTIO_KINDS
            invariant
                0 <= i <= HOSTIO_KINDS,
                counts@.len() == i,
                forall|j: int| 0 <= j < i ==> counts@[j] == 0,
                sum_counts(counts@) == 0,
            decreases HOSTIO_KINDS - i,
        {
            let ghost prev = counts@;
            counts.push(0);
            assert(counts@.drop_last() =~= prev);
            i = i + 1;
        }
        HostIoStats { counts, calls: 0, gas: 0 }
    }

    /// The number of interactions of kind `t`.
    pub fn count_for_type(&self, t: HostIoType) -> (r: u64)
        requires
            self.wf(),
        ensures
            r == self.count_of(t),
    {
        self.counts[kind_position(t)]
    }

    /// The number of host interactions.
    pub fn total_calls(&self) -> (r: u64)
        ensures
            r == self.calls(),
    {
        self.calls
    }

    /// The gas that the host interactions used.
    pub fn total_gas(&self) -> (r: u64)
        ensures
            r == self.gas(),
    {
        self.gas
    }
}

/// The position of a kind in the fixed order.
pub fn kind_position(t: HostIoType) -> (r: usize)
    ensures
        r as int == kind_index(t),
        r < HOSTIO_KINDS,
        kind_at(r as int) == t,
{
    match t {
        HostIoType::StorageLoad => 0,
        HostIoType::StorageStore => 1,
        HostIoType::Call => 2,
        HostIoType::StaticCall => 3,
        HostIoType::DelegateCall => 4,
        HostIoType::Create => 5,
        HostIoType::Log => 6,
        HostIoType::SelfDestruct => 7,
        HostIoType::AccountBalance => 8,
        HostIoType::BlockHash => 9,
        HostIoType::Other => 10,
    }
}

/// The kind at a position of the fixed order.
pub fn kind_at_position(i: usize) -> (r: HostIoType)
    requires
        i < HOSTIO_KINDS,
    ensures
        r == kind_at(i as int),
        kind_index(r) == i,
{
    if i == 0 {
        HostIoType::StorageLoad
    } else if i == 1 {
        HostIoType::StorageStore
    } else if i == 2 {
        HostIoType::Call
    } else if i == 3 {
        HostIoType::StaticCall
    } else if i == 4 {
        HostIoType::DelegateCall
    } else if i == 5 {
        HostIoType::Create
    } else if i == 6 {
        HostIoType::Log
    } else if i == 7 {
        HostIoType::SelfDestruct
    } else if i == 8 {
        HostIoType::AccountBalance
    } else if i == 9 {
        HostIoType::BlockHash
    } else {
        HostIoType::Other
    }
}

/// The name of a kind.
pub fn kind_label(t: HostIoType) -> (r: &'static str)
    ensures
        r@ == kind_name(t),
{
    match t {
        HostIoType::StorageLoad => "StorageLoad",
        HostIoType::StorageStore => "StorageStore",
        HostIoType::Call => "Call",
        HostIoType::StaticCall => "StaticCall",
        HostIoType::DelegateCall => "DelegateCall",
        HostIoType::Create => "Create",
        HostIoType::Log => "Log",
        HostIoType::SelfDestruct => "SelfDestruct",
        HostIoType::AccountBalance => "AccountBalance",
        HostIoType::BlockHash => "BlockHash",
        HostIoType::Other => "Other",
    }
}

/// The kind of host interaction that an operation name stands for, if any.
pub fn classify_operation(op: &str) -> (r: Option<HostIoType>)
    ensures
        r == classify(op@),
{
    if same_text(op, "SLOAD") || same_text(op, "storage_load_bytes32") {
        Some(HostIoType::StorageLoad)
    } else if same_text(op, "SSTORE") || same_text(op, "storage_store_bytes32") || same_text(
        op,
        "storage_cache_bytes32",
    ) {
        Some(HostIoType::StorageStore)
    } else if same_text(op, "CALL") || same_text(op, "call_contract") {
        Some(HostIoType::Call)
    } else if same_text(op, "STATICCALL") || same_text(op, "static_call_contract") {
        Some(HostIoType::StaticCall)
    } else if same_text(op, "DELEGATECALL") || same_text(op, "delegate_call_contract") {
        Some(HostIoType::DelegateCall)
    } else if same_text(op, "CREATE") || same_text(op, "CREATE2") || same_text(op, "create1")
        || same_text(op, "create2") {
        Some(HostIoType::Create)
    } else if same_text(op, "LOG0") || same_text(op, "LOG1") || same_text(op, "LOG2") || same_text(
        op,
        "LOG3",
    ) || same_text(op, "LOG4") || same_text(op, "emit_log") {
        Some(HostIoType::Log)
    } else if same_text(op, "SELFDESTRUCT") {
        Some(HostIoType::SelfDestruct)
    } else if same_text(op, "BALANCE") || same_text(op, "account_balance") {
        Some(HostIoType::AccountBalance)
    } else if same_text(op, "BLOCKHASH") || same_text(op, "block_hash") {
        Some(HostIoType::BlockHash)
    } else if same_text(op, "read_args") || same_text(op, "write_result") || same_text(
        op,
        "msg_sender",
    ) || same_text(op, "msg_value") || same_text(op, "tx_origin") || same_text(op, "account_code")
        || same_text(op, "account_codehash") || same_text(op, "evm_gas_left") {
        Some(HostIoType::Other)
    } else {
        None
    }
}

/// Counts the host interactions among `steps`, by kind, and the gas they used
/// (capped at `u64::MAX`).
pub fn extract_hostio_events(steps: &Vec<ExecutionStep>) -> (r: HostIoStats)
    ensures
        r.wf(),
        forall|t: HostIoType| #[trigger] r.count_of(t) == kind_count(step_views(steps@), t),
        r.gas() == cap(host_gas(step_views(steps@))),
{
    let ghost views = step_views(steps@);
    let mut stats = HostIoStats::new();
    let mut i: usize = 0;
    while i < steps.len()
        invariant
            0 <= i <= steps@.len(),
            views == step_views(steps@),
            stats.wf(),
            stats.calls() <= i,
            forall|t: HostIoType| #[trigger] stats.count_of(t) == kind_count(views.take(i as int), t),
            stats.gas() == cap(host_gas(views.take(i as int))),
        decreases steps@.len() - i,
    {
        let ghost pre = views.take(i as int);
        let ghost next = views.take(i + 1);
        assert(next.drop_last() =~= pre);
        assert(next.last() == steps@[i as int]@);
        let step = &steps[i];
        let kind = match &step.op {
            Some(op) => classify_operation(op.as_str()),
            None => None,
        };
        assert(kind == step_kind(next.last()));
        proof {
            lemma_host_gas_nonneg(pre);
        }
        match kind {
            Some(t) => {
                let p = kind_position(t);
                let c = stats.counts[p];
                let ghost old_counts = stats.counts@;
                assert(forall|u: HostIoType| #[trigger] old_counts[kind_index(u)] == kind_count(pre, u)) by {
                    assert forall|u: HostIoType| #[trigger] old_counts[kind_index(u)] == kind_count(pre, u) by {
                        assert(stats.count_of(u) == kind_count(pre, u));
                    }
                }
                proof {
                    assert(stats.counts@[p as int] <= sum_counts(stats.counts@)) by {
                        lemma_count_le_sum(stats.counts@, p as int);
                    }
                    lemma_sum_counts_bump(stats.counts@, p as int);
                }
                stats.counts.set(p, c + 1);
                stats.calls = stats.calls + 1;
                stats.gas = stats.gas.saturating_add(step.gas_cost);
                assert(stats.counts@ == old_counts.update(p as int, (c + 1) as u64));
                assert forall|u: HostIoType| #[trigger] stats.count_of(u) == kind_count(next, u) by {
                    assert(old_counts[kind_index(u)] == kind_count(pre, u));
                    if u != t {
                        assert(kind_index(u) != kind_index(t));
                    }
                }
            },
            None => {},
        }
        i = i + 1;
    }
    assert(views.take(steps@.len() as int) =~= views);
    stats
}

proof fn lemma_host_gas_nonneg(steps: Seq<StepView>)
    ensures
        host_gas(steps) >= 0,
    decreases steps.len(),
{
    if steps.len() > 0 {
        lemma_host_gas_nonneg(steps.drop_last());
    }
}

pub(crate) proof fn lemma_count_le_sum(s: Seq<u64>, i: int)
    requires
        0 <= i < s.len(),
    ensures
        s[i] <= sum_counts(s),
    decreases s.len(),
{
    lemma_sum_counts_nonneg(s.drop_last());
    if i < s.len() - 1 {
        lemma_count_le_sum(s.drop_last(), i);
    }
}

pub(crate) proof fn lemma_sum_counts_nonneg(s: Seq<u64>)
    ensures
        sum_counts(s) >= 0,
    decreases s.len(),
{
    if s.len() > 0 {
        lemma_sum_counts_nonneg(s.drop_last());
    }
}

} // verus!
