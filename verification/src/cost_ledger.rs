//! What the tools saved. Amounts of money are carried by the bits of their
//! double-precision values.
use vstd::prelude::*;

use crate::keys::{is_map, ordered_map, pairs, same_values};
use crate::text::str_eq;

verus! {

// ---- The savings model ---------------------------------------------------------------------

/// What finding the answer of one tool by hand would have taken.
#[derive(Debug)]
pub struct Counterfactual {
    pub tool: String,
    /// The tokens read by hand; 0 for a tool that replaces no reading.
    pub tokens_p50: u32,
    pub tokens_p95: u32,
    pub wall_ms_p50: u64,
}

/// The model by which savings are computed.
#[derive(Debug)]
pub struct CalibrationModel {
    pub version: String,
    pub tools: Vec<Counterfactual>,
}

/// The savings of one call.
#[derive(Debug)]
pub struct Layer2Fields {
    pub counterfactual_tokens_p50: u64,
    pub counterfactual_tokens_p95: u64,
    pub tokens_saved_p50: i64,
    pub dollars_saved_p50_usd: u64,
    pub counterfactual_wall_ms_p50: u64,
    pub calibration_model_version: String,
}

/// Locating an answer by hand takes at least so many tokens more than reading it.
pub const LOCATE_TOKENS: u64 = 2000;

/// The tokens that a call saved: none for a tool that replaces no reading and none for a
/// call that found nothing; otherwise what reading by hand would have taken, which is at
/// least the answer and the cost of locating it, less the answer.
pub open spec fn saved_tokens(anchor: u32, result_tokens: u64, after_rank: i64) -> int {
    if anchor == 0 || after_rank <= 0 {
        0
    } else if anchor > result_tokens + LOCATE_TOKENS {
        anchor - result_tokens
    } else {
        LOCATE_TOKENS as int
    }
}

/// The first entry for a tool.
pub open spec fn anchor_of(tools: Seq<Counterfactual>, tool: Seq<char>) -> Option<u32>
    decreases tools.len(),
{
    if tools.len() == 0 {
        None
    } else if tools[0].tool@ == tool {
        Some(tools[0].tokens_p50)
    } else {
        anchor_of(tools.drop_first(), tool)
    }
}

/// The savings of a call under a model; nothing where the model does not know the tool.
pub open spec fn model_saved(
    m: CalibrationModel,
    tool: Seq<char>,
    result_tokens: u64,
    after_rank: i64,
) -> Option<int> {
    match anchor_of(m.tools@, tool) {
        Some(anchor) => Some(saved_tokens(anchor, result_tokens, after_rank)),
        None => None,
    }
}

impl CalibrationModel {
    /// The tokens that a call saved.
    pub fn tokens_saved(&self, tool: &str, result_tokens: u64, after_rank: i64) -> (r: Option<i64>)
        ensures
            match r {
                Some(n) => model_saved(*self, tool@, result_tokens, after_rank) == Some(n as int),
                None => model_saved(*self, tool@, result_tokens, after_rank) is None,
            },
    {
        let ghost all = self.tools@;
        assert(all.skip(0) =~= all);
        for i in 0..self.tools.len()
            invariant
                all == self.tools@,
                anchor_of(all, tool@) == anchor_of(all.skip(i as int), tool@),
        {
            assert(all.skip(i as int)[0] == all[i as int]);
            assert(all.skip(i as int).drop_first() =~= all.skip(i + 1));
            if str_eq(self.tools[i].tool.as_str(), tool) {
                let anchor: u64 = self.tools[i].tokens_p50 as u64;
                let saved: i64 = if anchor == 0 || after_rank <= 0 {
                    0
                } else if result_tokens < anchor && anchor - result_tokens > LOCATE_TOKENS {
                    (anchor - result_tokens) as i64
                } else {
                    LOCATE_TOKENS as i64
                };
                return Some(saved);
            }
        }
        None
    }
}

/// Under the model no call ever counts as a loss, and one that found nothing saves
/// nothing.
pub proof fn law_the_model_banks_no_loss(anchor: u32, result_tokens: u64, after_rank: i64)
    ensures
        saved_tokens(anchor, result_tokens, after_rank) >= 0,
        after_rank == 0 ==> saved_tokens(anchor, result_tokens, after_rank) == 0,
        anchor == 0 ==> saved_tokens(anchor, result_tokens, after_rank) == 0,
{
}

/// What a call that found something saved: with the answer it makes up the tokens that
/// reading by hand would have taken, and those are the larger of the tool's own figure and
/// of the answer with the cost of locating it. How much was found does not matter.
pub proof fn law_savings_and_answer_make_up_the_reading(
    anchor: u32,
    result_tokens: u64,
    after_rank: i64,
    other_rank: i64,
)
    requires
        anchor > 0,
        after_rank > 0,
        other_rank > 0,
    ensures
        ({
            let saved = saved_tokens(anchor, result_tokens, after_rank);
            &&& saved + result_tokens >= anchor
            &&& saved + result_tokens >= result_tokens + 2000
            &&& saved + result_tokens == anchor || saved + result_tokens == result_tokens + 2000
            &&& saved == saved_tokens(anchor, result_tokens, other_rank)
        }),
{
}

/// A call that found nothing saves nothing, and neither does one of a tool that replaces no
/// reading.
pub proof fn law_finding_nothing_saves_nothing(anchor: u32, result_tokens: u64, after_rank: i64)
    ensures
        after_rank <= 0 || anchor == 0 ==> saved_tokens(anchor, result_tokens, after_rank) == 0,
{
}

/// The model scores exactly the tools that it has, each by its first entry.
pub proof fn law_a_tool_is_scored_by_its_first_entry(
    m: CalibrationModel,
    tool: Seq<char>,
    result_tokens: u64,
    after_rank: i64,
    k: int,
)
    requires
        0 <= k < m.tools@.len(),
        m.tools@[k].tool@ == tool,
        forall|i: int| 0 <= i < k ==> (#[trigger] m.tools@[i]).tool@ != tool,
    ensures
        model_saved(m, tool, result_tokens, after_rank) == Some(
            saved_tokens(m.tools@[k].tokens_p50, result_tokens, after_rank),
        ),
{
    lemma_anchor(m.tools@, tool, k);
}

/// A tool that the model does not have is not scored.
pub proof fn law_an_unknown_tool_is_not_scored(
    m: CalibrationModel,
    tool: Seq<char>,
    result_tokens: u64,
    after_rank: i64,
)
    requires
        forall|i: int| 0 <= i < m.tools@.len() ==> (#[trigger] m.tools@[i]).tool@ != tool,
    ensures
        model_saved(m, tool, result_tokens, after_rank) is None,
{
    lemma_no_anchor(m.tools@, tool);
}

proof fn lemma_anchor(tools: Seq<Counterfactual>, tool: Seq<char>, k: int)
    requires
        0 <= k < tools.len(),
        tools[k].tool@ == tool,
        forall|i: int| 0 <= i < k ==> (#[trigger] tools[i]).tool@ != tool,
    ensures
        anchor_of(tools, tool) == Some(tools[k].tokens_p50),
    decreases k,
{
    if k > 0 {
        assert(tools[0].tool@ != tool);
        assert forall|i: int| 0 <= i < k - 1 implies (#[trigger] tools.drop_first()[i]).tool@
            != tool by {
            assert(tools[i + 1].tool@ != tool);
        }
        lemma_anchor(tools.drop_first(), tool, k - 1);
    }
}

proof fn lemma_no_anchor(tools: Seq<Counterfactual>, tool: Seq<char>)
    requires
        forall|i: int| 0 <= i < tools.len() ==> (#[trigger] tools[i]).tool@ != tool,
    ensures
        anchor_of(tools, tool) is None,
    decreases tools.len(),
{
    if tools.len() > 0 {
        assert(tools[0].tool@ != tool);
        assert forall|i: int| 0 <= i < tools.drop_first().len() implies (
        #[trigger] tools.drop_first()[i]).tool@ != tool by {
            assert(tools[i + 1].tool@ != tool);
        }
        lemma_no_anchor(tools.drop_first(), tool);
    }
}

// ---- The ledger ----------------------------------------------------------------------------

/// The savings of one tool in a window.
#[derive(Clone, Copy, Debug, PartialEq, Eq, Structural)]
pub struct CostSavingsPerTool {
    pub queries: i64,
    pub tokens_saved_p50: i64,
    pub dollars_saved_p50_usd: u64,
}

/// The savings in a window.
#[derive(Debug)]
pub struct CostSavingsWindow {
    pub queries_served: i64,
    pub tokens_returned: i64,
    pub counterfactual_tokens_p50: i64,
    pub tokens_saved_p50: i64,
    pub dollars_saved_p50_usd: u64,
    /// One entry per tool, in the order of their names.
    pub per_tool: Vec<(String, CostSavingsPerTool)>,
}

impl CostSavingsWindow {
    /// Each tool has one entry, and they are in order.
    pub open spec fn is_ordered(self) -> bool {
        is_map(self.per_tool@)
    }

    /// The windows say the same.
    pub open spec fn says(self, w: CostSavingsWindow) -> bool {
        &&& self.queries_served == w.queries_served
        &&& self.tokens_returned == w.tokens_returned
        &&& self.counterfactual_tokens_p50 == w.counterfactual_tokens_p50
        &&& self.tokens_saved_p50 == w.tokens_saved_p50
        &&& self.dollars_saved_p50_usd == w.dollars_saved_p50_usd
        &&& same_values(pairs(self.per_tool@), pairs(w.per_tool@))
    }

    /// The window with its tools in order.
    pub fn in_order(self) -> (r: CostSavingsWindow)
        ensures
            r.is_ordered(),
            r.says(self),
    {
        CostSavingsWindow {
            queries_served: self.queries_served,
            tokens_returned: self.tokens_returned,
            counterfactual_tokens_p50: self.counterfactual_tokens_p50,
            tokens_saved_p50: self.tokens_saved_p50,
            dollars_saved_p50_usd: self.dollars_saved_p50_usd,
            per_tool: ordered_map(&self.per_tool),
        }
    }
}

/// The savings over three windows.
#[derive(Debug)]
pub struct CostSavingsLedger {
    pub calibration_model_version: String,
    pub window_1d: CostSavingsWindow,
    pub window_7d: CostSavingsWindow,
    pub window_30d: CostSavingsWindow,
}

impl CostSavingsLedger {
    pub open spec fn is_ordered(self) -> bool {
        self.window_1d.is_ordered() && self.window_7d.is_ordered() && self.window_30d.is_ordered()
    }

    /// The ledgers say the same.
    pub open spec fn says(self, l: CostSavingsLedger) -> bool {
        &&& self.calibration_model_version@ == l.calibration_model_version@
        &&& self.window_1d.says(l.window_1d)
        &&& self.window_7d.says(l.window_7d)
        &&& self.window_30d.says(l.window_30d)
    }

    /// The ledger with the tools of its windows in order.
    pub fn in_order(self) -> (r: CostSavingsLedger)
        ensures
            r.is_ordered(),
            r.says(self),
    {
        CostSavingsLedger {
            calibration_model_version: self.calibration_model_version,
            window_1d: self.window_1d.in_order(),
            window_7d: self.window_7d.in_order(),
            window_30d: self.window_30d.in_order(),
        }
    }
}

/// Ledgers that say the same have the same version and, window by window, the same figures,
/// tool by tool.
pub proof fn law_ledgers_that_say_the_same(a: CostSavingsLedger, b: CostSavingsLedger)
    requires
        a.says(b),
    ensures
        a.calibration_model_version@ == b.calibration_model_version@,
        a.window_1d.queries_served == b.window_1d.queries_served,
        a.window_1d.tokens_returned == b.window_1d.tokens_returned,
        a.window_1d.counterfactual_tokens_p50 == b.window_1d.counterfactual_tokens_p50,
        a.window_1d.tokens_saved_p50 == b.window_1d.tokens_saved_p50,
        a.window_1d.dollars_saved_p50_usd == b.window_1d.dollars_saved_p50_usd,
        same_values(pairs(a.window_1d.per_tool@), pairs(b.window_1d.per_tool@)),
        a.window_7d.queries_served == b.window_7d.queries_served,
        a.window_7d.tokens_returned == b.window_7d.tokens_returned,
        a.window_7d.counterfactual_tokens_p50 == b.window_7d.counterfactual_tokens_p50,
        a.window_7d.tokens_saved_p50 == b.window_7d.tokens_saved_p50,
        a.window_7d.dollars_saved_p50_usd == b.window_7d.dollars_saved_p50_usd,
        same_values(pairs(a.window_7d.per_tool@), pairs(b.window_7d.per_tool@)),
        a.window_30d.queries_served == b.window_30d.queries_served,
        a.window_30d.tokens_returned == b.window_30d.tokens_returned,
        a.window_30d.counterfactual_tokens_p50 == b.window_30d.counterfactual_tokens_p50,
        a.window_30d.tokens_saved_p50 == b.window_30d.tokens_saved_p50,
        a.window_30d.dollars_saved_p50_usd == b.window_30d.dollars_saved_p50_usd,
        same_values(pairs(a.window_30d.per_tool@), pairs(b.window_30d.per_tool@)),
{
}

/// The tools of an ordered ledger are maps in every window.
pub proof fn law_ordered_ledgers_are_maps(l: CostSavingsLedger)
    requires
        l.is_ordered(),
    ensures
        is_map(l.window_1d.per_tool@),
        is_map(l.window_7d.per_tool@),
        is_map(l.window_30d.per_tool@),
{
}

} // verus!
