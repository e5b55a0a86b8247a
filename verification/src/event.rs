//! The events of a session.

use vstd::prelude::*;

pub mod numbering;

verus! {

/// A stage of a compaction that goes section by section.
#[derive(Clone, Copy, Debug, PartialEq, Eq, Structural)]
pub enum CompactStage {
    Analysis,
    PrimaryRequestAndIntent,
    KeyTechnicalContextAndDecisions,
    FilesCodeAndArtifacts,
    ProblemsInvestigationsAndResolutions,
    CurrentStateAndContinuationPlan,
}

/// The stages of a compaction, in order.
pub open spec fn stages() -> Seq<CompactStage> {
    seq![
        CompactStage::Analysis,
        CompactStage::PrimaryRequestAndIntent,
        CompactStage::KeyTechnicalContextAndDecisions,
        CompactStage::FilesCodeAndArtifacts,
        CompactStage::ProblemsInvestigationsAndResolutions,
        CompactStage::CurrentStateAndContinuationPlan,
    ]
}

impl CompactStage {
    /// The stages of a compaction, in order.
    pub fn segmented() -> (r: Vec<CompactStage>)
        ensures
            r@ == stages(),
    {
        let mut r: Vec<CompactStage> = Vec::new();
        r.push(CompactStage::Analysis);
        r.push(CompactStage::PrimaryRequestAndIntent);
        r.push(CompactStage::KeyTechnicalContextAndDecisions);
        r.push(CompactStage::FilesCodeAndArtifacts);
        r.push(CompactStage::ProblemsInvestigationsAndResolutions);
        r.push(CompactStage::CurrentStateAndContinuationPlan);
        assert(r@ =~= stages());
        r
    }
}

/// The tokens that the interface has counted for a request.
#[derive(Clone, Copy, Debug, PartialEq, Eq, Structural)]
pub struct ApiUsage {
    pub input_tokens: u64,
    pub output_tokens: u64,
    pub total_tokens: u64,
}

/// The tokens of a context, by what they stand for.
#[derive(Clone, Copy, Debug, PartialEq, Eq, Structural)]
pub struct ContextTokenUsage {
    pub system: u64,
    pub compact: u64,
    pub memory: u64,
    pub user: u64,
    pub model: u64,
    pub tool: u64,
}

impl Default for ContextTokenUsage {
    fn default() -> (r: Self)
        ensures
            r == (ContextTokenUsage {
                system: 0,
                compact: 0,
                memory: 0,
                user: 0,
                model: 0,
                tool: 0,
            }),
    {
        ContextTokenUsage { system: 0, compact: 0, memory: 0, user: 0, model: 0, tool: 0 }
    }
}

/// All tokens of `usage`.
pub open spec fn usage_sum(usage: ContextTokenUsage) -> int {
    usage.system + usage.compact + usage.memory + usage.user + usage.model + usage.tool
}

/// The part of `total` that `value` has of `sum`, rounded down.
pub open spec fn share(value: u64, total: u64, sum: int) -> int {
    (value * total) / sum
}

/// Whether the part of `total` that `value` has of `sum` is rounded.
pub open spec fn is_rounded(value: u64, total: u64, sum: int) -> bool {
    (value * total) % sum != 0
}

/// What is lost by rounding.
pub open spec fn lost_tokens(usage: ContextTokenUsage, total: u64) -> int {
    let sum = usage_sum(usage);
    total - share(usage.system, total, sum) - share(usage.compact, total, sum) - share(
        usage.memory,
        total,
        sum,
    ) - share(usage.user, total, sum) - share(usage.model, total, sum) - share(
        usage.tool,
        total,
        sum,
    )
}

/// One token back where `value` is rounded and `lost` ones are to be given back.
pub open spec fn token_back(value: u64, total: u64, sum: int, lost: int) -> int {
    if lost > 0 && is_rounded(value, total, sum) {
        1
    } else {
        0
    }
}

/// `usage` brought to `total` tokens in all: each category keeps its share, rounded down, and
/// what that loses goes to the first categories that were rounded. Where there is nothing to
/// share out nothing changes.
pub open spec fn normalized_usage(usage: ContextTokenUsage, total: u64) -> ContextTokenUsage {
    let sum = usage_sum(usage);
    if sum == 0 {
        usage
    } else {
        let l0 = lost_tokens(usage, total);
        let a = token_back(usage.system, total, sum, l0);
        let l1 = l0 - a;
        let b = token_back(usage.compact, total, sum, l1);
        let l2 = l1 - b;
        let c = token_back(usage.memory, total, sum, l2);
        let l3 = l2 - c;
        let d = token_back(usage.user, total, sum, l3);
        let l4 = l3 - d;
        let e = token_back(usage.model, total, sum, l4);
        let l5 = l4 - e;
        let f = token_back(usage.tool, total, sum, l5);
        ContextTokenUsage {
            system: (share(usage.system, total, sum) + a) as u64,
            compact: (share(usage.compact, total, sum) + b) as u64,
            memory: (share(usage.memory, total, sum) + c) as u64,
            user: (share(usage.user, total, sum) + d) as u64,
            model: (share(usage.model, total, sum) + e) as u64,
            tool: (share(usage.tool, total, sum) + f) as u64,
        }
    }
}

/// A share is no more than all there is, also where it is rounded up.
pub proof fn lemma_share(value: u64, total: u64, sum: int)
    requires
        0 < sum,
        value <= sum,
    ensures
        0 <= share(value, total, sum) <= total,
        is_rounded(value, total, sum) ==> share(value, total, sum) + 1 <= total,
        value * total == share(value, total, sum) * sum + (value * total) % sum,
        0 <= (value * total) % sum < sum,
        value > 0 && total >= sum ==> share(value, total, sum) > 0,
{
    let product = value * total;
    assert(product >= 0) by (nonlinear_arith)
        requires
            product == value * total,
            value >= 0,
            total >= 0,
    ;
    assert(product <= sum * total) by (nonlinear_arith)
        requires
            product == value * total,
            value <= sum,
            total >= 0,
    ;
    vstd::arithmetic::div_mod::lemma_fundamental_div_mod(product, sum);
    vstd::arithmetic::div_mod::lemma_mod_bound(product, sum);
    let quotient = product / sum;
    let rest = product % sum;
    assert(product == sum * quotient + rest);
    assert(sum * quotient == quotient * sum) by (nonlinear_arith);
    assert(quotient >= 0) by (nonlinear_arith)
        requires
            product == sum * quotient + rest,
            product >= 0,
            rest < sum,
            sum > 0,
    ;
    assert(quotient <= total) by (nonlinear_arith)
        requires
            product == sum * quotient + rest,
            product <= sum * total,
            rest >= 0,
            sum > 0,
    ;
    if rest != 0 {
        assert(quotient < total) by (nonlinear_arith)
            requires
                product == sum * quotient + rest,
                product <= sum * total,
                rest > 0,
                sum > 0,
        ;
    }
    if value > 0 && total >= sum {
        assert(quotient > 0) by (nonlinear_arith)
            requires
                product == sum * quotient + rest,
                product == value * total,
                value >= 1,
                total >= sum,
                rest < sum,
                sum > 0,
        ;
    }
}

proof fn lemma_lost(usage: ContextTokenUsage, total: u64)
    requires
        usage_sum(usage) > 0,
    ensures
        0 <= lost_tokens(usage, total),
        lost_tokens(usage, total) <= rounded_count(usage, total),
{
    let sum = usage_sum(usage);
    lemma_share(usage.system, total, sum);
    lemma_share(usage.compact, total, sum);
    lemma_share(usage.memory, total, sum);
    lemma_share(usage.user, total, sum);
    lemma_share(usage.model, total, sum);
    lemma_share(usage.tool, total, sum);
    let lost = lost_tokens(usage, total);
    let (a, b, c) = (usage.system as int, usage.compact as int, usage.memory as int);
    let (d, e, f) = (usage.user as int, usage.model as int, usage.tool as int);
    let t = total as int;
    let rests = (a * t) % sum + (b * t) % sum + (c * t) % sum + (d * t) % sum + (e * t) % sum + (f
        * t) % sum;
    let (p, q, r) = (
        share(usage.system, total, sum),
        share(usage.compact, total, sum),
        share(usage.memory, total, sum),
    );
    let (u, v, w) = (
        share(usage.user, total, sum),
        share(usage.model, total, sum),
        share(usage.tool, total, sum),
    );
    assert(sum * t == a * t + b * t + c * t + d * t + e * t + f * t) by (nonlinear_arith)
        requires
            sum == a + b + c + d + e + f,
    ;
    assert(lost * sum == t * sum - p * sum - q * sum - r * sum - u * sum - v * sum - w * sum)
        by (nonlinear_arith)
        requires
            lost == t - p - q - r - u - v - w,
    ;
    assert(t * sum == sum * t) by (nonlinear_arith);
    assert(lost * sum == rests);
    assert(lost >= 0) by (nonlinear_arith)
        requires
            lost * sum == rests,
            rests >= 0,
            sum > 0,
    ;
    let count = rounded_count(usage, total);
    assert(rests <= count * sum) by {
        assert(count * sum == rounded_one(usage.system, total, sum) * sum + rounded_one(
            usage.compact,
            total,
            sum,
        ) * sum + rounded_one(usage.memory, total, sum) * sum + rounded_one(usage.user, total, sum)
            * sum + rounded_one(usage.model, total, sum) * sum + rounded_one(
            usage.tool,
            total,
            sum,
        ) * sum) by (nonlinear_arith)
            requires
                count == rounded_one(usage.system, total, sum) + rounded_one(
                    usage.compact,
                    total,
                    sum,
                ) + rounded_one(usage.memory, total, sum) + rounded_one(usage.user, total, sum)
                    + rounded_one(usage.model, total, sum) + rounded_one(usage.tool, total, sum),
        ;
        lemma_rest_bound(usage.system, total, sum);
        lemma_rest_bound(usage.compact, total, sum);
        lemma_rest_bound(usage.memory, total, sum);
        lemma_rest_bound(usage.user, total, sum);
        lemma_rest_bound(usage.model, total, sum);
        lemma_rest_bound(usage.tool, total, sum);
    }
    assert(lost <= count) by (nonlinear_arith)
        requires
            lost * sum == rests,
            rests <= count * sum,
            sum > 0,
    ;
}

proof fn lemma_rest_bound(value: u64, total: u64, sum: int)
    requires
        0 < sum,
        0 <= (value * total) % sum < sum,
    ensures
        (value * total) % sum <= rounded_one(value, total, sum) * sum,
{
    let one = rounded_one(value, total, sum);
    if one == 1 {
        assert(one * sum == sum) by (nonlinear_arith)
            requires
                one == 1,
        ;
    } else {
        assert(one * sum == 0) by (nonlinear_arith)
            requires
                one == 0,
        ;
    }
}

/// One where the share of `value` is rounded.
pub open spec fn rounded_one(value: u64, total: u64, sum: int) -> int {
    if is_rounded(value, total, sum) {
        1
    } else {
        0
    }
}

/// How many shares are rounded.
pub open spec fn rounded_count(usage: ContextTokenUsage, total: u64) -> int {
    let sum = usage_sum(usage);
    rounded_one(usage.system, total, sum) + rounded_one(usage.compact, total, sum) + rounded_one(
        usage.memory,
        total,
        sum,
    ) + rounded_one(usage.user, total, sum) + rounded_one(usage.model, total, sum) + rounded_one(
        usage.tool,
        total,
        sum,
    )
}

/// Where there is anything to share out, the shares add up to the total; a category without
/// tokens gets none, and one with tokens keeps some where the total is not less than before.
pub proof fn law_normalized_usage(usage: ContextTokenUsage, total: u64)
    requires
        usage_sum(usage) > 0,
    ensures
        usage_sum(normalized_usage(usage, total)) == total,
        usage.system == 0 ==> normalized_usage(usage, total).system == 0,
        usage.compact == 0 ==> normalized_usage(usage, total).compact == 0,
        usage.memory == 0 ==> normalized_usage(usage, total).memory == 0,
        usage.user == 0 ==> normalized_usage(usage, total).user == 0,
        usage.model == 0 ==> normalized_usage(usage, total).model == 0,
        usage.tool == 0 ==> normalized_usage(usage, total).tool == 0,
        total >= usage_sum(usage) ==> {
            &&& usage.system > 0 ==> normalized_usage(usage, total).system > 0
            &&& usage.compact > 0 ==> normalized_usage(usage, total).compact > 0
            &&& usage.memory > 0 ==> normalized_usage(usage, total).memory > 0
            &&& usage.user > 0 ==> normalized_usage(usage, total).user > 0
            &&& usage.model > 0 ==> normalized_usage(usage, total).model > 0
            &&& usage.tool > 0 ==> normalized_usage(usage, total).tool > 0
        },
{
    let sum = usage_sum(usage);
    lemma_lost(usage, total);
    lemma_share(usage.system, total, sum);
    lemma_share(usage.compact, total, sum);
    lemma_share(usage.memory, total, sum);
    lemma_share(usage.user, total, sum);
    lemma_share(usage.model, total, sum);
    lemma_share(usage.tool, total, sum);
    lemma_zero_share(total, sum);
}

/// Whether `part` of `total` is what `value` is of `sum`, less than one more or less.
pub open spec fn is_proportional(part: u64, value: u64, total: u64, sum: int) -> bool {
    -sum < part * sum - value * total < sum
}

/// Shares are proportional: each category gets of the total what it had of the sum, with less than
/// one token more or less.
pub proof fn law_shares_are_proportional(usage: ContextTokenUsage, total: u64)
    requires
        usage_sum(usage) > 0,
    ensures
        is_proportional(
            normalized_usage(usage, total).system,
            usage.system,
            total,
            usage_sum(usage),
        ),
        is_proportional(
            normalized_usage(usage, total).compact,
            usage.compact,
            total,
            usage_sum(usage),
        ),
        is_proportional(
            normalized_usage(usage, total).memory,
            usage.memory,
            total,
            usage_sum(usage),
        ),
        is_proportional(
            normalized_usage(usage, total).user,
            usage.user,
            total,
            usage_sum(usage),
        ),
        is_proportional(
            normalized_usage(usage, total).model,
            usage.model,
            total,
            usage_sum(usage),
        ),
        is_proportional(
            normalized_usage(usage, total).tool,
            usage.tool,
            total,
            usage_sum(usage),
        ),
{
    let sum = usage_sum(usage);
    lemma_proportional(usage.system, total, sum);
    lemma_proportional(usage.compact, total, sum);
    lemma_proportional(usage.memory, total, sum);
    lemma_proportional(usage.user, total, sum);
    lemma_proportional(usage.model, total, sum);
    lemma_proportional(usage.tool, total, sum);
}

proof fn lemma_proportional(value: u64, total: u64, sum: int)
    requires
        0 < sum,
        value <= sum,
    ensures
        is_proportional(share(value, total, sum) as u64, value, total, sum),
        is_rounded(value, total, sum) ==> is_proportional(
            (share(value, total, sum) + 1) as u64,
            value,
            total,
            sum,
        ),
{
    lemma_share(value, total, sum);
    let part = share(value, total, sum);
    assert((part + 1) * sum == part * sum + sum) by (nonlinear_arith);
}

/// A usage that adds up to the total already stays as it is.
pub proof fn law_normalizing_to_the_sum(usage: ContextTokenUsage, total: u64)
    requires
        usage_sum(usage) == total,
    ensures
        normalized_usage(usage, total) == usage,
{
    let sum = usage_sum(usage);
    if sum > 0 {
        lemma_whole_share(usage.system, total);
        lemma_whole_share(usage.compact, total);
        lemma_whole_share(usage.memory, total);
        lemma_whole_share(usage.user, total);
        lemma_whole_share(usage.model, total);
        lemma_whole_share(usage.tool, total);
    }
}

proof fn lemma_whole_share(value: u64, total: u64)
    requires
        total > 0,
    ensures
        share(value, total, total as int) == value,
        !is_rounded(value, total, total as int),
{
    vstd::arithmetic::div_mod::lemma_div_multiples_vanish(value as int, total as int);
    vstd::arithmetic::div_mod::lemma_mod_multiples_basic(value as int, total as int);
    assert(value * total == total * value) by (nonlinear_arith);
}

proof fn lemma_zero_share(total: u64, sum: int)
    requires
        sum > 0,
    ensures
        share(0, total, sum) == 0,
        !is_rounded(0, total, sum),
{
    assert(0 * total == 0) by (nonlinear_arith);
    assert(0int / sum == 0) by (nonlinear_arith)
        requires
            sum > 0,
    ;
    assert(0int % sum == 0) by (nonlinear_arith)
        requires
            sum > 0,
    ;
}

/// The share of a category, rounded down, and whether it was rounded.
fn split_share(value: u64, total: u64, sum: u128) -> (r: (u64, bool))
    requires
        0 < sum,
        value <= sum,
    ensures
        r.0 == share(value, total, sum as int),
        r.1 == is_rounded(value, total, sum as int),
        r.0 <= total,
        r.1 ==> r.0 < total,
{
    proof {
        lemma_share(value, total, sum as int);
        assert(value * total <= 0xffff_ffff_ffff_ffff * 0xffff_ffff_ffff_ffff)
            by (nonlinear_arith)
            requires
                0 <= value <= 0xffff_ffff_ffff_ffff,
                0 <= total <= 0xffff_ffff_ffff_ffff,
        ;
    }
    let product = value as u128 * total as u128;
    ((product / sum) as u64, product % sum != 0)
}

/// Gives one token back to a category that was rounded, as long as there are any.
fn give_back(part: (u64, bool), lost: &mut u64, total: u64) -> (r: u64)
    requires
        part.0 <= total,
        part.1 ==> part.0 < total,
    ensures
        *final(lost) == *old(lost) - (r - part.0),
        r == part.0 + (if *old(lost) > 0 && part.1 {
            1int
        } else {
            0int
        }),
{
    if *lost > 0 && part.1 {
        *lost = *lost - 1;
        part.0 + 1
    } else {
        part.0
    }
}

impl ContextTokenUsage {
    /// All tokens, or the largest `u64` where that is more.
    pub fn sum(&self) -> (r: u64)
        ensures
            r == (if usage_sum(*self) <= u64::MAX {
                usage_sum(*self)
            } else {
                u64::MAX as int
            }),
    {
        self.system.saturating_add(self.compact).saturating_add(self.memory).saturating_add(
            self.user,
        ).saturating_add(self.model).saturating_add(self.tool)
    }

    /// Brings the tokens to `total` in all.
    pub fn normalize_to(&mut self, total: u64)
        ensures
            *final(self) == normalized_usage(*old(self), total),
    {
        let sum = self.system as u128 + self.compact as u128 + self.memory as u128
            + self.user as u128 + self.model as u128 + self.tool as u128;
        if sum == 0 {
            return;
        }
        let system = split_share(self.system, total, sum);
        let compact = split_share(self.compact, total, sum);
        let memory = split_share(self.memory, total, sum);
        let user = split_share(self.user, total, sum);
        let model = split_share(self.model, total, sum);
        let tool = split_share(self.tool, total, sum);
        proof {
            lemma_lost(*self, total);
        }
        let mut lost = total - system.0 - compact.0 - memory.0 - user.0 - model.0 - tool.0;
        self.system = give_back(system, &mut lost, total);
        self.compact = give_back(compact, &mut lost, total);
        self.memory = give_back(memory, &mut lost, total);
        self.user = give_back(user, &mut lost, total);
        self.model = give_back(model, &mut lost, total);
        self.tool = give_back(tool, &mut lost, total);
    }
}

/// The number of an event.
pub type EventId = u64;

/// What kind of agent acts.
#[derive(Clone, Copy, Debug, PartialEq, Eq, Structural)]
pub enum AgentKind {
    Interactive,
    Worker,
}

/// How far a turn has come.
#[derive(Clone, Copy, Debug, PartialEq, Eq, Structural)]
pub enum AgentTurnState {
    Started,
    Completed,
    Failed,
}

/// How a call of a tool came out.
#[derive(Clone, Copy, Debug, PartialEq, Eq, Structural)]
pub enum ToolResultState {
    Succeeded,
    Failed,
}

/// How a compaction is carried out.
#[derive(Clone, Copy, Debug, PartialEq, Eq, Structural)]
pub enum CompactKind {
    Segmented,
    WorkerSingleTurn,
}

/// How far a compaction has come.
#[derive(Clone, Copy, Debug, PartialEq, Eq, Structural)]
pub enum CompactState {
    Started,
    Completed,
    Failed,
}

/// What has happened.
#[derive(Debug)]
pub enum EventKind {
    AgentKindDef {
        agent: AgentKind,
        name: String,
        model: Option<String>,
        parent: Option<String>,
    },
    UserPrompt { content: String },
    FollowUpPrompt { turn: EventId, content: String },
    ManagerPrompt { content: String },
    ParentAgentPrompt { content: String },
    AgentTurn { turn: EventId, prompt: EventId, progress: AgentTurnState, detail: String },
    AssistResponse { turn: EventId, content: String, complete: bool },
    ApiRequesting { turn: EventId },
    ToolCall { api: EventId, turn: EventId, call_name: String, name: String, arguments: String },
    ToolResult { call: EventId, result: ToolResultState, fault: Option<String>, output: String },
    CompactStarted { tool_call_id: EventId, turn: EventId, manner: CompactKind },
    CompactStateUpdate {
        compact: EventId,
        tool_call_id: EventId,
        state: CompactState,
        summary: String,
        error: String,
    },
    ContextCleared,
}

/// Something that has happened, with its number.
#[derive(Debug)]
pub struct Event {
    pub id: EventId,
    pub kind: EventKind,
}

/// The model of what has happened.
#[verifier::ext_equal]
pub enum Happening {
    AgentKindDef {
        agent: AgentKind,
        name: Seq<char>,
        model: Option<Seq<char>>,
        parent: Option<Seq<char>>,
    },
    UserPrompt(Seq<char>),
    FollowUp(EventId, Seq<char>),
    ManagerPrompt(Seq<char>),
    ParentAgentPrompt(Seq<char>),
    AgentTurn { turn: EventId, prompt: EventId, progress: AgentTurnState, detail: Seq<char> },
    AssistResponse { turn: EventId, content: Seq<char>, complete: bool },
    ApiRequesting(EventId),
    ToolCall {
        api: EventId,
        turn: EventId,
        call_name: Seq<char>,
        name: Seq<char>,
        arguments: Seq<char>,
    },
    ToolResult {
        call: EventId,
        result: ToolResultState,
        fault: Option<Seq<char>>,
        output: Seq<char>,
    },
    CompactStarted { tool_call_id: EventId, turn: EventId, manner: CompactKind },
    CompactUpdate {
        compact: EventId,
        tool_call_id: EventId,
        state: CompactState,
        summary: Seq<char>,
        error: Seq<char>,
    },
    Cleared,
}

/// The model of an event.
#[verifier::ext_equal]
pub struct EventText {
    pub id: EventId,
    pub happening: Happening,
}

/// The model of a text that may be missing.
pub open spec fn optional_text(text: Option<String>) -> Option<Seq<char>> {
    match text {
        Some(text) => Some(text@),
        None => None,
    }
}

impl View for EventKind {
    type V = Happening;

    open spec fn view(&self) -> Happening {
        match *self {
            EventKind::AgentKindDef { agent, name, model, parent } => Happening::AgentKindDef {
                agent,
                name: name@,
                model: optional_text(model),
                parent: optional_text(parent),
            },
            EventKind::UserPrompt { content } => Happening::UserPrompt(content@),
            EventKind::FollowUpPrompt { turn, content } => Happening::FollowUp(turn, content@),
            EventKind::ManagerPrompt { content } => Happening::ManagerPrompt(content@),
            EventKind::ParentAgentPrompt { content } => Happening::ParentAgentPrompt(content@),
            EventKind::AgentTurn { turn, prompt, progress, detail } => Happening::AgentTurn {
                turn,
                prompt,
                progress,
                detail: detail@,
            },
            EventKind::AssistResponse { turn, content, complete } => Happening::AssistResponse {
                turn,
                content: content@,
                complete,
            },
            EventKind::ApiRequesting { turn } => Happening::ApiRequesting(turn),
            EventKind::ToolCall { api, turn, call_name, name, arguments } => Happening::ToolCall {
                api,
                turn,
                call_name: call_name@,
                name: name@,
                arguments: arguments@,
            },
            EventKind::ToolResult { call, result, fault, output } => Happening::ToolResult {
                call,
                result,
                fault: optional_text(fault),
                output: output@,
            },
            EventKind::CompactStarted { tool_call_id, turn, manner } => Happening::CompactStarted {
                tool_call_id,
                turn,
                manner,
            },
            EventKind::CompactStateUpdate { compact, tool_call_id, state, summary, error } => {
                Happening::CompactUpdate {
                    compact,
                    tool_call_id,
                    state,
                    summary: summary@,
                    error: error@,
                }
            },
            EventKind::ContextCleared => Happening::Cleared,
        }
    }
}

impl View for Event {
    type V = EventText;

    open spec fn view(&self) -> EventText {
        EventText { id: self.id, happening: self.kind@ }
    }
}

/// The models of events.
pub open spec fn events_view(events: Seq<Event>) -> Seq<EventText> {
    events.map_values(|event: Event| event@)
}

/// The position of the first of `events` that has the number `id`.
pub open spec fn position_of_event(events: Seq<EventText>, id: EventId) -> Option<int>
    decreases events.len(),
{
    if events.len() == 0 {
        None
    } else {
        match position_of_event(events.drop_last(), id) {
            Some(at) => Some(at),
            None => if events.last().id == id {
                Some(events.len() - 1)
            } else {
                None
            },
        }
    }
}

/// What is wrong with an event that is to be recorded or looked up.
#[derive(Clone, Copy, Debug, PartialEq, Eq, Structural)]
pub enum EventError {
    /// No event has the number.
    Unknown(EventId),
    /// There are no more numbers.
    Full,
}

/// Where the event with the number `id` stands.
pub fn find_event(events: &[Event], id: EventId) -> (r: Option<usize>)
    ensures
        match r {
            Some(at) => at < events@.len() && position_of_event(events_view(events@), id) == Some(
                at as int,
            ),
            None => position_of_event(events_view(events@), id) is None,
        },
{
    let ghost all = events_view(events@);
    for i in 0..events.len()
        invariant
            all == events_view(events@),
            position_of_event(all.take(i as int), id) is None,
    {
        assert(all.take(i + 1).drop_last() =~= all.take(i as int));
        assert(all.take(i + 1).last() == events@[i as int]@);
        if events[i].id == id {
            proof {
                lemma_position_stays(all.take(i + 1), all.skip(i + 1), id);
                assert(all.take(i + 1) + all.skip(i + 1) =~= all);
            }
            return Some(i);
        }
    }
    assert(all.take(all.len() as int) =~= all);
    None
}

/// An event that has been found is found at the same position when more has happened.
pub proof fn lemma_position_stays(events: Seq<EventText>, more: Seq<EventText>, id: EventId)
    requires
        position_of_event(events, id) is Some,
    ensures
        position_of_event(events + more, id) == position_of_event(events, id),
    decreases more.len(),
{
    if more.len() == 0 {
        assert(events + more =~= events);
    } else {
        lemma_position_stays(events, more.drop_last(), id);
        assert((events + more).drop_last() =~= events + more.drop_last());
    }
}

/// An event that is found stands within the events and has the number.
pub proof fn lemma_position_of_event(events: Seq<EventText>, id: EventId)
    ensures
        match position_of_event(events, id) {
            Some(at) => 0 <= at < events.len() && events[at].id == id,
            None => true,
        },
    decreases events.len(),
{
    if events.len() > 0 {
        lemma_position_of_event(events.drop_last(), id);
    }
}

/// Where the events begin that no clearing of the context has followed.
pub open spec fn lineage_start(events: Seq<EventText>) -> int
    decreases events.len(),
{
    if events.len() == 0 {
        0
    } else if events.last().happening is Cleared {
        events.len() as int
    } else {
        lineage_start(events.drop_last())
    }
}

/// The events that no clearing has followed begin among the events.
pub proof fn lemma_lineage_start(events: Seq<EventText>)
    ensures
        0 <= lineage_start(events) <= events.len(),
    decreases events.len(),
{
    if events.len() > 0 {
        lemma_lineage_start(events.drop_last());
    }
}

/// Where the events begin that no clearing of the context has followed.
fn find_lineage_start(events: &[Event], end: usize) -> (r: usize)
    requires
        end <= events@.len(),
    ensures
        r <= end,
        r == lineage_start(events_view(events@).take(end as int)),
{
    let ghost all = events_view(events@);
    let mut at = end;
    while at > 0
        invariant
            all == events_view(events@),
            at <= end <= events@.len(),
            lineage_start(all.take(at as int)) == lineage_start(all.take(end as int)),
        decreases at,
    {
        assert(all.take(at as int).last() == events@[at - 1]@);
        assert(all.take(at as int).drop_last() =~= all.take(at - 1));
        if let EventKind::ContextCleared = events[at - 1].kind {
            return at;
        }
        at = at - 1;
    }
    at
}

/// The events that no clearing of the context has followed.
pub open spec fn lineage(events: Seq<EventText>) -> Seq<EventText> {
    events.skip(lineage_start(events))
}

/// The events before the one with the number `boundary`, since the context was last cleared.
pub open spec fn history_events(events: Seq<EventText>, boundary: EventId) -> Option<
    Seq<EventText>,
> {
    match position_of_event(events, boundary) {
        None => None,
        Some(at) => Some(lineage(events.take(at))),
    }
}

/// The positions between which the events lie that stand before the one with the number
/// `boundary` and that no clearing of the context has followed there.
pub fn effective_history_events(events: &[Event], boundary: EventId) -> (r: Result<
    (usize, usize),
    EventError,
>)
    ensures
        match r {
            Ok((from, to)) => from <= to <= events@.len() && history_events(
                events_view(events@),
                boundary,
            ) == Some(events_view(events@).subrange(from as int, to as int)),
            Err(error) => error == EventError::Unknown(boundary) && history_events(
                events_view(events@),
                boundary,
            ) is None,
        },
{
    let ghost all = events_view(events@);
    match find_event(events, boundary) {
        None => Err(EventError::Unknown(boundary)),
        Some(to) => {
            let from = find_lineage_start(events, to);
            assert(all.take(to as int).skip(from as int) =~= all.subrange(from as int, to as int));
            Ok((from, to))
        },
    }
}

/// The call of the last completed compaction that no clearing of the context has followed.
pub open spec fn latest_compaction(events: Seq<EventText>) -> Option<EventId>
    decreases events.len(),
{
    if events.len() == 0 {
        None
    } else {
        match events.last().happening {
            Happening::Cleared => None,
            Happening::CompactUpdate { tool_call_id, state, .. } if state
                == CompactState::Completed => Some(tool_call_id),
            _ => latest_compaction(events.drop_last()),
        }
    }
}

/// The call of the last completed compaction that no clearing of the context has followed.
pub fn find_latest_compaction(events: &[Event]) -> (r: Option<EventId>)
    ensures
        r == latest_compaction(events_view(events@)),
{
    let ghost all = events_view(events@);
    let mut at = events.len();
    assert(all.take(at as int) =~= all);
    while at > 0
        invariant
            all == events_view(events@),
            at <= events@.len(),
            latest_compaction(all.take(at as int)) == latest_compaction(all),
        decreases at,
    {
        assert(all.take(at as int).last() == events@[at - 1]@);
        assert(all.take(at as int).drop_last() =~= all.take(at - 1));
        match &events[at - 1].kind {
            EventKind::ContextCleared => return None,
            EventKind::CompactStateUpdate { tool_call_id, state, .. } => {
                if *state == CompactState::Completed {
                    return Some(*tool_call_id);
                }
            },
            _ => {},
        }
        at = at - 1;
    }
    None
}

/// Nothing before a clearing of the context is left behind it.
pub proof fn law_clearing_forgets(before: Seq<EventText>, id: EventId, after: Seq<EventText>)
    ensures
        ({
            let cleared = before.push(EventText { id, happening: Happening::Cleared });
            &&& lineage(cleared + after) == lineage(after)
            &&& latest_compaction(cleared + after) == latest_compaction(after)
        }),
{
    lemma_lineage_start(after);
    lemma_lineage_behind_a_clearing(before, id, after);
    let cleared = before.push(EventText { id, happening: Happening::Cleared });
    assert((cleared + after).skip(cleared.len() + lineage_start(after)) =~= after.skip(
        lineage_start(after),
    ));
}

proof fn lemma_lineage_behind_a_clearing(
    before: Seq<EventText>,
    id: EventId,
    after: Seq<EventText>,
)
    ensures
        ({
            let cleared = before.push(EventText { id, happening: Happening::Cleared });
            &&& lineage_start(cleared + after) == cleared.len() + lineage_start(after)
            &&& latest_compaction(cleared + after) == latest_compaction(after)
        }),
    decreases after.len(),
{
    let cleared = before.push(EventText { id, happening: Happening::Cleared });
    if after.len() == 0 {
        assert(cleared + after =~= cleared);
    } else {
        lemma_lineage_behind_a_clearing(before, id, after.drop_last());
        assert((cleared + after).last() == after.last());
        assert((cleared + after).drop_last() =~= cleared + after.drop_last());
    }
}

/// As long as the context is not cleared, all that has happened counts.
pub proof fn law_nothing_is_forgotten_before_a_clearing(events: Seq<EventText>)
    requires
        forall|i: int| 0 <= i < events.len() ==> !((#[trigger] events[i]).happening is Cleared),
    ensures
        lineage(events) == events,
{
    lemma_no_clearing(events);
    assert(events.skip(0) =~= events);
}

proof fn lemma_no_clearing(events: Seq<EventText>)
    requires
        forall|i: int| 0 <= i < events.len() ==> !((#[trigger] events[i]).happening is Cleared),
    ensures
        lineage_start(events) == 0,
    decreases events.len(),
{
    if events.len() > 0 {
        let rest = events.drop_last();
        assert forall|i: int| 0 <= i < rest.len() implies !((
        #[trigger] rest[i]).happening is Cleared) by {
            assert(rest[i] == events[i]);
        }
        assert(events.last() == events[events.len() - 1]);
        lemma_no_clearing(rest);
    }
}

/// The latest compaction is the last one that was completed: one that is completed takes the place
/// of any other, a clearing of the context leaves none, and nothing else changes it.
pub proof fn law_latest_compaction_is_the_last_completed(
    events: Seq<EventText>,
    event: EventText,
)
    ensures
        event.happening matches Happening::CompactUpdate { tool_call_id, state, .. } ==> latest_compaction(
            events.push(event),
        ) == (if state == CompactState::Completed {
            Some(tool_call_id)
        } else {
            latest_compaction(events)
        }),
        event.happening is Cleared ==> latest_compaction(events.push(event)) is None,
        event.happening !is CompactUpdate && event.happening !is Cleared ==> latest_compaction(
            events.push(event),
        ) == latest_compaction(events),
        latest_compaction(Seq::empty()) is None,
{
    assert(events.push(event).drop_last() =~= events);
}

/// An event is found by its number: the first that has it, wherever one does.
pub proof fn law_events_are_found_by_their_number(events: Seq<EventText>, id: EventId)
    ensures
        match position_of_event(events, id) {
            Some(at) => 0 <= at < events.len() && events[at].id == id && forall|i: int|
                0 <= i < at ==> (#[trigger] events[i]).id != id,
            None => forall|i: int| 0 <= i < events.len() ==> (#[trigger] events[i]).id != id,
        },
    decreases events.len(),
{
    if events.len() > 0 {
        let before = events.drop_last();
        law_events_are_found_by_their_number(before, id);
        assert forall|i: int| 0 <= i < before.len() implies #[trigger] events[i] == before[i] by {}
        assert(events.last() == events[events.len() - 1]);
    }
}

/// The events of a session, numbered from one.
#[derive(Debug)]
pub struct EventDataBase {
    events: Vec<Event>,
}

impl View for EventDataBase {
    type V = Seq<EventText>;

    closed spec fn view(&self) -> Seq<EventText> {
        events_view(self.events@)
    }
}

/// `events` with one more, which has the next number.
pub open spec fn recorded(events: Seq<EventText>, happening: Happening) -> Seq<EventText> {
    events.push(EventText { id: (events.len() + 1) as u64, happening })
}

/// Whether recording `happening` has come out as `r`, with `after` the events after it: there is
/// an event more, which has the next number, unless there are no more numbers.
pub open spec fn is_recorded(
    before: Seq<EventText>,
    after: Seq<EventText>,
    happening: Happening,
    r: Result<EventId, EventError>,
) -> bool {
    match r {
        Ok(id) => before.len() < u64::MAX && id == before.len() + 1 && after == recorded(
            before,
            happening,
        ),
        Err(error) => error == EventError::Full && before.len() >= u64::MAX && after == before,
    }
}

impl EventDataBase {
    /// No events yet.
    pub fn new() -> (r: Self)
        ensures
            r@ == Seq::<EventText>::empty(),
    {
        let r = EventDataBase { events: Vec::new() };
        assert(r@ =~= Seq::empty());
        r
    }

    /// The events, in order.
    pub fn events(&self) -> (r: &[Event])
        ensures
            events_view(r@) == self@,
    {
        self.events.as_slice()
    }

    fn append(&mut self, kind: EventKind) -> (r: Result<EventId, EventError>)
        ensures
            is_recorded(old(self)@, final(self)@, kind@, r),
    {
        let ghost before = self@;
        let count = self.events.len() as u64;
        if count == u64::MAX {
            return Err(EventError::Full);
        }
        let event = Event { id: count + 1, kind };
        self.events.push(event);
        assert(self@ =~= before.push(event@));
        Ok(count + 1)
    }

    /// An agent comes into play.
    pub fn append_agent_kind_def(
        &mut self,
        kind: AgentKind,
        name: &str,
        model: Option<String>,
        parent: Option<String>,
    ) -> (r: Result<EventId, EventError>)
        ensures
            is_recorded(
                old(self)@,
                final(self)@,
                Happening::AgentKindDef {
                    agent: kind,
                    name: name@,
                    model: optional_text(model),
                    parent: optional_text(parent),
                },
                r,
            ),
    {
        self.append(EventKind::AgentKindDef { agent: kind, name: name.to_owned(), model, parent })
    }

    /// The user asks for something.
    pub fn append_user_prompt(&mut self, content: &str) -> (r: Result<EventId, EventError>)
        ensures
            is_recorded(old(self)@, final(self)@, Happening::UserPrompt(content@), r),
    {
        self.append(EventKind::UserPrompt { content: content.to_owned() })
    }

    /// The user adds something to what they asked for.
    pub fn append_follow_up_prompt(&mut self, turn: EventId, content: &str) -> (r: Result<
        EventId,
        EventError,
    >)
        ensures
            is_recorded(old(self)@, final(self)@, Happening::FollowUp(turn, content@), r),
    {
        self.append(EventKind::FollowUpPrompt { turn, content: content.to_owned() })
    }

    /// A manager asks a worker for something.
    pub fn append_manager_prompt(&mut self, content: &str) -> (r: Result<EventId, EventError>)
        ensures
            is_recorded(old(self)@, final(self)@, Happening::ManagerPrompt(content@), r),
    {
        self.append(EventKind::ManagerPrompt { content: content.to_owned() })
    }

    /// An agent asks another one for something.
    pub fn append_parent_agent_prompt(&mut self, content: &str) -> (r: Result<EventId, EventError>)
        ensures
            is_recorded(old(self)@, final(self)@, Happening::ParentAgentPrompt(content@), r),
    {
        self.append(EventKind::ParentAgentPrompt { content: content.to_owned() })
    }

    /// A turn has come to a state.
    pub fn append_agent_turn(
        &mut self,
        turn: EventId,
        prompt: EventId,
        state: AgentTurnState,
        detail: &str,
    ) -> (r: Result<EventId, EventError>)
        ensures
            is_recorded(
                old(self)@,
                final(self)@,
                Happening::AgentTurn { turn, prompt, progress: state, detail: detail@ },
                r,
            ),
    {
        self.append(EventKind::AgentTurn { turn, prompt, progress: state, detail: detail.to_owned() })
    }

    /// The model answers.
    pub fn append_assist_response(&mut self, turn: EventId, content: &str, complete: bool) -> (r:
        Result<EventId, EventError>)
        ensures
            is_recorded(
                old(self)@,
                final(self)@,
                Happening::AssistResponse { turn, content: content@, complete },
                r,
            ),
    {
        self.append(EventKind::AssistResponse { turn, content: content.to_owned(), complete })
    }

    /// A request goes out to the model.
    pub fn append_api_requesting(&mut self, turn: EventId) -> (r: Result<EventId, EventError>)
        ensures
            is_recorded(old(self)@, final(self)@, Happening::ApiRequesting(turn), r),
    {
        self.append(EventKind::ApiRequesting { turn })
    }

    /// The model calls a tool.
    pub fn append_tool_call(
        &mut self,
        api: EventId,
        turn: EventId,
        call: &str,
        name: &str,
        arguments: &str,
    ) -> (r: Result<EventId, EventError>)
        ensures
            is_recorded(
                old(self)@,
                final(self)@,
                Happening::ToolCall {
                    api,
                    turn,
                    call_name: call@,
                    name: name@,
                    arguments: arguments@,
                },
                r,
            ),
    {
        self.append(
            EventKind::ToolCall {
                api,
                turn,
                call_name: call.to_owned(),
                name: name.to_owned(),
                arguments: arguments.to_owned(),
            },
        )
    }

    /// A tool has done its work.
    pub fn append_tool_result(
        &mut self,
        call: EventId,
        state: ToolResultState,
        error: Option<String>,
        output: &str,
    ) -> (r: Result<EventId, EventError>)
        ensures
            is_recorded(
                old(self)@,
                final(self)@,
                Happening::ToolResult {
                    call,
                    result: state,
                    fault: optional_text(error),
                    output: output@,
                },
                r,
            ),
    {
        self.append(EventKind::ToolResult {
                call,
                result: state,
                fault: error,
                output: output.to_owned(),
            })
    }

    /// A compaction begins, which the call `tool_call_id` asked for.
    pub fn append_compact_started(
        &mut self,
        tool_call_id: EventId,
        turn: EventId,
        kind: CompactKind,
    ) -> (r: Result<EventId, EventError>)
        ensures
            is_recorded(
                old(self)@,
                final(self)@,
                Happening::CompactStarted { tool_call_id, turn, manner: kind },
                r,
            ),
    {
        self.append(EventKind::CompactStarted { tool_call_id, turn, manner: kind })
    }

    /// The compaction `compact` has come to a state.
    pub fn append_compact_terminal(
        &mut self,
        compact: EventId,
        state: CompactState,
        summary: &str,
        error: &str,
    ) -> (r: Result<EventId, EventError>)
        ensures
            match started_call(old(self)@, compact) {
                Some(call) => is_recorded(
                    old(self)@,
                    final(self)@,
                    Happening::CompactUpdate {
                        compact,
                        tool_call_id: call,
                        state,
                        summary: summary@,
                        error: error@,
                    },
                    r,
                ),
                None => r == Err::<EventId, EventError>(EventError::Unknown(compact))
                    && final(self)@ == old(self)@,
            },
    {
        let at = match find_event(&self.events, compact) {
            Some(at) => at,
            None => return Err(EventError::Unknown(compact)),
        };
        assert(self@[at as int] == self.events@[at as int]@);
        let tool_call_id = match &self.events[at].kind {
            EventKind::CompactStarted { tool_call_id, .. } => *tool_call_id,
            _ => return Err(EventError::Unknown(compact)),
        };
        self.append(
            EventKind::CompactStateUpdate {
                compact,
                tool_call_id,
                state,
                summary: summary.to_owned(),
                error: error.to_owned(),
            },
        )
    }

    /// The context is cleared.
    pub fn append_context_cleared(&mut self) -> (r: Result<EventId, EventError>)
        ensures
            is_recorded(old(self)@, final(self)@, Happening::Cleared, r),
    {
        self.append(EventKind::ContextCleared)
    }
}

/// The call that the compaction with the number `compact` was started for.
pub open spec fn started_call(events: Seq<EventText>, compact: EventId) -> Option<EventId> {
    match position_of_event(events, compact) {
        Some(at) => match events[at].happening {
            Happening::CompactStarted { tool_call_id, .. } => Some(tool_call_id),
            _ => None,
        },
        None => None,
    }
}

} // verus!
