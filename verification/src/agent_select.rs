//! The agent selector: filtering configured agents by name and keeping
//! track of the chosen model per agent.

use vstd::prelude::*;

use crate::config::AgentProviderConfig;
use crate::strutil::lower_of;
use crate::strutil::str_eq;
use crate::strutil::to_lowercase;

verus! {

/// Status of one agent run.
#[derive(Clone, Copy, Debug, PartialEq, Eq, Structural)]
pub enum AgentRunStatus {
    Running,
    Success { exit_code: i32 },
    Failed { exit_code: i32 },
}

/// Whether `needle` occurs in `hay` as a contiguous substring.
pub open spec fn is_substring(needle: Seq<char>, hay: Seq<char>) -> bool {
    exists|k: int|
        0 <= k <= hay.len() - needle.len() && #[trigger] hay.subrange(k, k + needle.len())
            == needle
}

/// Whether `pat` occurs in `sc` at position `i`.
fn chars_match_at(sc: &Vec<char>, pat: &Vec<char>, i: usize) -> (r: bool)
    requires
        i + pat@.len() <= sc@.len(),
    ensures
        r == (sc@.subrange(i as int, i + pat@.len()) == pat@),
{
    let sn = sc.len();
    let pn = pat.len();
    let mut k: usize = 0;
    while k < pn
        invariant
            sn == sc@.len(),
            pn == pat@.len(),
            i + pn <= sn,
            k <= pn,
            forall|q: int| 0 <= q < k ==> sc@[i + q] == pat@[q],
        decreases pn - k,
    {
        if sc[i + k] != pat[k] {
            proof {
                assert(sc@.subrange(i as int, i + pat@.len())[k as int] != pat@[k as int]);
            }
            return false;
        }
        k = k + 1;
    }
    proof {
        assert(sc@.subrange(i as int, i + pat@.len()) =~= pat@);
    }
    true
}

/// Substring search over characters.
pub fn contains_str(hay: &str, needle: &str) -> (r: bool)
    ensures
        r == is_substring(needle@, hay@),
{
    let hc = crate::strutil::chars_of(hay);
    let nc = crate::strutil::chars_of(needle);
    let hn = hc.len();
    let nn = nc.len();
    if nn > hn {
        proof {
            assert(hay@.len() - needle@.len() < 0);
            assert(!is_substring(needle@, hay@));
        }
        return false;
    }
    let limit = hn - nn;
    let mut k: usize = 0;
    while k < limit
        invariant
            hc@ == hay@,
            nc@ == needle@,
            hn == hay@.len(),
            nn == needle@.len(),
            nn <= hn,
            limit == hn - nn,
            k <= limit,
            forall|q: int|
                0 <= q < k ==> #[trigger] hay@.subrange(q, q + needle@.len()) != needle@,
        decreases limit - k,
    {
        if chars_match_at(&hc, &nc, k) {
            return true;
        }
        k = k + 1;
    }
    if chars_match_at(&hc, &nc, limit) {
        return true;
    }
    proof {
        assert(hay@.subrange(limit as int, limit + needle@.len()) != needle@);
        assert(!is_substring(needle@, hay@));
    }
    false
}

/// Whether an agent's name matches the filter, case-folded.
pub open spec fn agent_matches(a: AgentProviderConfig, filter: Seq<char>) -> bool {
    is_substring(lower_of(filter), lower_of(a.name@))
}

/// The agent indices the filter keeps, from index `i` on.
pub open spec fn agents_filtered_from(
    agents: Seq<AgentProviderConfig>,
    filter: Seq<char>,
    i: int,
) -> Seq<usize>
    decreases agents.len() - i,
{
    if i < 0 || i >= agents.len() {
        Seq::empty()
    } else if filter.len() == 0 || agent_matches(agents[i], filter) {
        seq![i as usize] + agents_filtered_from(agents, filter, i + 1)
    } else {
        agents_filtered_from(agents, filter, i + 1)
    }
}

pub proof fn lemma_agents_filtered_in_range(
    agents: Seq<AgentProviderConfig>,
    filter: Seq<char>,
    i: int,
)
    requires
        0 <= i <= agents.len(),
        agents.len() <= usize::MAX,
    ensures
        forall|k: int|
            0 <= k < agents_filtered_from(agents, filter, i).len() ==> i <= (
            #[trigger] agents_filtered_from(agents, filter, i)[k]) < agents.len(),
    decreases agents.len() - i,
{
    if i < agents.len() {
        lemma_agents_filtered_in_range(agents, filter, i + 1);
        let rest = agents_filtered_from(agents, filter, i + 1);
        assert forall|k: int|
            0 <= k < agents_filtered_from(agents, filter, i).len() implies i <= (
        #[trigger] agents_filtered_from(agents, filter, i)[k]) < agents.len() by {
            if filter.len() == 0 || agent_matches(agents[i], filter) {
                if k >= 1 {
                    assert(agents_filtered_from(agents, filter, i)[k] == rest[k - 1]);
                }
            } else {
                assert(agents_filtered_from(agents, filter, i)[k] == rest[k]);
            }
        }
    }
}

/// The model a last-used table stores for an agent name.
pub open spec fn last_model_of(
    last_models: Seq<(String, String)>,
    name: Seq<char>,
    i: int,
) -> Option<Seq<char>>
    decreases last_models.len() - i,
{
    if i < 0 || i >= last_models.len() {
        None
    } else if last_models[i].0@ == name {
        Some(last_models[i].1@)
    } else {
        last_model_of(last_models, name, i + 1)
    }
}

/// Position of the first model equal to `m`, or zero.
pub open spec fn model_position(models: Seq<String>, m: Seq<char>, i: int) -> int
    decreases models.len() - i,
{
    if i < 0 || i >= models.len() {
        0
    } else if models[i]@ == m {
        i
    } else {
        model_position(models, m, i + 1)
    }
}

/// State of the agent selector modal.
#[derive(Debug)]
pub struct AgentSelectorState {
    pub open: bool,
    pub filter: String,
    pub selected_agent: usize,
    pub selected_model: usize,
    pub agents: Vec<AgentProviderConfig>,
    pub filtered_indices: Vec<usize>,
    pub rerun_prompt: Option<String>,
    /// Last-used model per agent name.
    pub last_models: Vec<(String, String)>,
}

impl AgentSelectorState {
    pub open spec fn wf(&self) -> bool {
        &&& forall|k: int|
            0 <= k < self.filtered_indices@.len() ==> (#[trigger] self.filtered_indices@[k])
                < self.agents@.len()
        &&& (self.filtered_indices@.len() == 0 ==> self.selected_agent == 0)
        &&& (self.filtered_indices@.len() > 0 ==> self.selected_agent
            < self.filtered_indices@.len())
    }

    pub fn new() -> (r: AgentSelectorState)
        ensures
            !r.open,
            r.agents@.len() == 0,
            r.filtered_indices@.len() == 0,
            r.wf(),
    {
        AgentSelectorState {
            open: false,
            filter: String::new(),
            selected_agent: 0,
            selected_model: 0,
            agents: Vec::new(),
            filtered_indices: Vec::new(),
            rerun_prompt: None,
            last_models: Vec::new(),
        }
    }

    /// Recompute the filter: an empty filter keeps every agent, else an
    /// agent stays when the case-folded filter occurs in its case-folded
    /// name.
    pub fn refilter(&mut self)
        ensures
            final(self).agents@ == old(self).agents@,
            final(self).filter == old(self).filter,
            final(self).last_models@ == old(self).last_models@,
            final(self).selected_model == old(self).selected_model,
            final(self).filtered_indices@ == agents_filtered_from(
                old(self).agents@,
                old(self).filter@,
                0,
            ),
            final(self).wf(),
    {
        let ghost agents = self.agents@;
        let ghost query = self.filter@;
        let agents_len = self.agents.len();
        proof {
            assert(agents.len() == agents_len);
        }
        proof {
            lemma_agents_filtered_in_range(agents, query, 0);
        }
        let mut filtered: Vec<usize> = Vec::new();
        let empty_query = self.filter.as_str().is_empty();
        let query_lower = to_lowercase(self.filter.as_str());
        let mut i: usize = 0;
        while i < self.agents.len()
            invariant
                0 <= i <= agents.len(),
                agents == self.agents@,
                query == self.filter@,
                empty_query == (query.len() == 0),
                query_lower@ == lower_of(query),
                filtered@ + agents_filtered_from(agents, query, i as int) == agents_filtered_from(
                    agents,
                    query,
                    0,
                ),
            decreases agents.len() - i,
        {
            let keep = if empty_query {
                true
            } else {
                let name_lower = to_lowercase(self.agents[i].name.as_str());
                contains_str(name_lower.as_str(), query_lower.as_str())
            };
            if keep {
                filtered.push(i);
            }
            i = i + 1;
            proof {
                assert(filtered@ + agents_filtered_from(agents, query, i as int)
                    =~= agents_filtered_from(agents, query, 0));
            }
        }
        proof {
            assert(filtered@ =~= agents_filtered_from(agents, query, 0));
        }
        self.filtered_indices = filtered;
        if self.filtered_indices.len() > 0 {
            let max = self.filtered_indices.len() - 1;
            if self.selected_agent > max {
                self.selected_agent = max;
            }
        } else {
            self.selected_agent = 0;
        }
    }

    /// The selected agent's configuration, when one is selected.
    pub fn selected_agent_config(&self) -> (r: Option<&AgentProviderConfig>)
        requires
            self.wf(),
        ensures
            self.selected_agent < self.filtered_indices@.len() ==> (r matches Some(a) && *a
                == self.agents@[self.filtered_indices@[self.selected_agent as int] as int]),
            self.selected_agent >= self.filtered_indices@.len() ==> r is None,
    {
        if self.selected_agent < self.filtered_indices.len() {
            let idx = self.filtered_indices[self.selected_agent];
            Some(&self.agents[idx])
        } else {
            None
        }
    }

    /// The model the selector currently points at, for the selected
    /// agent: its `selected_model`-th model, the default when that index
    /// is out of range or the agent lists no models.
    pub fn selected_model_name(&self) -> (r: Option<String>)
        requires
            self.wf(),
        ensures
            self.selected_agent >= self.filtered_indices@.len() ==> r is None,
            self.selected_agent < self.filtered_indices@.len() ==> {
                let a = self.agents@[self.filtered_indices@[self.selected_agent as int] as int];
                if a.models@.len() == 0 {
                    r matches Some(m) && m == a.default_model
                } else if self.selected_model < a.models@.len() {
                    r matches Some(m) && m == a.models@[self.selected_model as int]
                } else {
                    r matches Some(m) && m == a.default_model
                }
            },
    {
        if self.selected_agent >= self.filtered_indices.len() {
            return None;
        }
        let idx = self.filtered_indices[self.selected_agent];
        let agent = &self.agents[idx];
        if agent.models.len() == 0 {
            Some(agent.default_model.clone())
        } else if self.selected_model < agent.models.len() {
            Some(agent.models[self.selected_model].clone())
        } else {
            Some(agent.default_model.clone())
        }
    }

    /// Step to the next model of the selected agent, wrapping around.
    pub fn cycle_model(&mut self)
        requires
            old(self).wf(),
            old(self).selected_model < usize::MAX,
        ensures
            final(self).agents@ == old(self).agents@,
            final(self).filtered_indices@ == old(self).filtered_indices@,
            final(self).selected_agent == old(self).selected_agent,
            ({
                let sel = old(self).selected_agent;
                if sel < old(self).filtered_indices@.len() {
                    let a = old(self).agents@[old(self).filtered_indices@[sel as int] as int];
                    if a.models@.len() > 0 {
                        final(self).selected_model as int == (old(self).selected_model + 1) % (
                        a.models@.len() as int)
                    } else {
                        final(self).selected_model == old(self).selected_model
                    }
                } else {
                    final(self).selected_model == old(self).selected_model
                }
            }),
            final(self).wf(),
    {
        if self.selected_agent < self.filtered_indices.len() {
            let idx = self.filtered_indices[self.selected_agent];
            let len = self.agents[idx].models.len();
            if len > 0 {
                self.selected_model = (self.selected_model + 1) % len;
            }
        }
    }

    /// Move the selection up one agent and restore its last-used model.
    pub fn select_up(&mut self)
        requires
            old(self).wf(),
        ensures
            final(self).selected_agent == (if old(self).selected_agent > 0 {
                old(self).selected_agent - 1
            } else {
                0int
            }),
            final(self).agents@ == old(self).agents@,
            final(self).filtered_indices@ == old(self).filtered_indices@,
            final(self).wf(),
    {
        if self.selected_agent > 0 {
            self.selected_agent = self.selected_agent - 1;
        }
        self.restore_model_for_selected();
    }

    /// Move the selection down one agent and restore its last-used model.
    pub fn select_down(&mut self)
        requires
            old(self).wf(),
        ensures
            final(self).agents@ == old(self).agents@,
            final(self).filtered_indices@ == old(self).filtered_indices@,
            old(self).filtered_indices@.len() == 0 ==> final(self).selected_agent == old(
                self,
            ).selected_agent,
            old(self).filtered_indices@.len() > 0 ==> final(self).selected_agent as int == (if old(
                self,
            ).selected_agent + 1 <= old(self).filtered_indices@.len() - 1 {
                old(self).selected_agent + 1
            } else {
                old(self).filtered_indices@.len() - 1
            }),
            final(self).wf(),
    {
        if self.filtered_indices.len() > 0 {
            let max = self.filtered_indices.len() - 1;
            if self.selected_agent >= max {
                self.selected_agent = max;
            } else {
                self.selected_agent = self.selected_agent + 1;
            }
        }
        self.restore_model_for_selected();
    }

    /// Point `selected_model` at the last-used model of the selected
    /// agent: its position in the agent's model list, zero when unknown.
    pub fn restore_model_for_selected(&mut self)
        requires
            old(self).wf(),
        ensures
            final(self).agents@ == old(self).agents@,
            final(self).filtered_indices@ == old(self).filtered_indices@,
            final(self).selected_agent == old(self).selected_agent,
            final(self).last_models@ == old(self).last_models@,
            final(self).filter == old(self).filter,
            ({
                let sel = old(self).selected_agent;
                if sel < old(self).filtered_indices@.len() {
                    let a = old(self).agents@[old(self).filtered_indices@[sel as int] as int];
                    match last_model_of(old(self).last_models@, a.name@, 0) {
                        Some(m) => final(self).selected_model as int == model_position(
                            a.models@,
                            m,
                            0,
                        ),
                        None => final(self).selected_model == 0,
                    }
                } else {
                    final(self).selected_model == 0
                }
            }),
            final(self).wf(),
    {
        if self.selected_agent >= self.filtered_indices.len() {
            self.selected_model = 0;
            return ;
        }
        let idx = self.filtered_indices[self.selected_agent];
        let ghost a = self.agents@[idx as int];
        // Look up the last-used model for this agent.
        let mut li: usize = 0;
        while li < self.last_models.len()
            invariant
                self.wf(),
                li <= self.last_models@.len(),
                idx < self.agents@.len(),
                a == self.agents@[idx as int],
                self.agents@ == old(self).agents@,
                self.filtered_indices@ == old(self).filtered_indices@,
                self.selected_agent == old(self).selected_agent,
                self.last_models@ == old(self).last_models@,
                self.filter == old(self).filter,
                self.selected_agent < self.filtered_indices@.len(),
                idx == self.filtered_indices@[self.selected_agent as int],
                last_model_of(self.last_models@, a.name@, 0) == last_model_of(
                    self.last_models@,
                    a.name@,
                    li as int,
                ),
            decreases self.last_models@.len() - li,
        {
            if str_eq(self.last_models[li].0.as_str(), self.agents[idx].name.as_str()) {
                // Find the model's position in the agent's list.
                let ghost m = self.last_models@[li as int].1@;
                proof {
                    assert(last_model_of(self.last_models@, a.name@, li as int) == Some(m));
                }
                let mut mi: usize = 0;
                while mi < self.agents[idx].models.len()
                    invariant
                        self.wf(),
                        idx < self.agents@.len(),
                        a == self.agents@[idx as int],
                        self.agents@ == old(self).agents@,
                        self.filtered_indices@ == old(self).filtered_indices@,
                        self.selected_agent == old(self).selected_agent,
                        self.last_models@ == old(self).last_models@,
                        self.filter == old(self).filter,
                        self.selected_agent < self.filtered_indices@.len(),
                        idx == self.filtered_indices@[self.selected_agent as int],
                        li < self.last_models@.len(),
                        m == self.last_models@[li as int].1@,
                        last_model_of(self.last_models@, a.name@, 0) == Some(m),
                        mi <= a.models@.len(),
                        model_position(a.models@, m, 0) == model_position(a.models@, m, mi as int),
                    decreases a.models@.len() - mi,
                {
                    if str_eq(
                        self.agents[idx].models[mi].as_str(),
                        self.last_models[li].1.as_str(),
                    ) {
                        self.selected_model = mi;
                        return ;
                    }
                    mi = mi + 1;
                }
                self.selected_model = 0;
                return ;
            }
            li = li + 1;
        }
        self.selected_model = 0;
    }

    /// Load the agent list, reset the filter, and restore the last-used
    /// model of the first agent.
    pub fn populate(&mut self, agents: &Vec<AgentProviderConfig>)
        ensures
            final(self).agents@.len() == agents@.len(),
            forall|i: int|
                0 <= i < agents@.len() ==> {
                    let a = #[trigger] final(self).agents@[i];
                    &&& a.name == agents@[i].name
                    &&& a.command == agents@[i].command
                    &&& a.default_model == agents@[i].default_model
                },
            final(self).filter@.len() == 0,
            final(self).filtered_indices@ == agents_filtered_from(
                final(self).agents@,
                Seq::empty(),
                0,
            ),
            final(self).wf(),
    {
        let mut copied: Vec<AgentProviderConfig> = Vec::new();
        let mut i: usize = 0;
        while i < agents.len()
            invariant
                i <= agents@.len(),
                copied@.len() == i,
                forall|q: int|
                    0 <= q < i ==> {
                        let a = #[trigger] copied@[q];
                        &&& a.name == agents@[q].name
                        &&& a.command == agents@[q].command
                        &&& a.default_model == agents@[q].default_model
                    },
            decreases agents@.len() - i,
        {
            copied.push(agents[i].clone());
            i = i + 1;
        }
        self.agents = copied;
        self.filter = String::new();
        self.selected_agent = 0;
        self.refilter();
        proof {
            assert(self.filter@ =~= Seq::<char>::empty());
        }
        self.restore_model_for_selected();
    }
}

} // verus!
