//! Global shortcuts: which accelerators to register and what each of them does.

use crate::text::{trim, trimmed};
use std::collections::HashMap;
use vstd::prelude::*;
use vstd::std_specs::hash::*;

verus! {

broadcast use group_hash_axioms;

/// What a registered global shortcut does when pressed.
#[derive(Debug)]
pub enum Action {
    GifCapture,
    Paste(String),
}

/// The model of an action.
pub enum ActionView {
    GifCapture,
    Paste(Seq<char>),
}

impl View for Action {
    type V = ActionView;

    open spec fn view(&self) -> ActionView {
        match self {
            Action::GifCapture => ActionView::GifCapture,
            Action::Paste(text) => ActionView::Paste(text@),
        }
    }
}

impl Action {
    /// Another action that does the same.
    pub fn copy(&self) -> (r: Action)
        ensures
            r@ == self@,
    {
        match self {
            Action::GifCapture => Action::GifCapture,
            Action::Paste(text) => Action::Paste(text.clone()),
        }
    }
}

/// One text-paster binding: an accelerator string plus the text it pastes.
#[derive(Debug)]
pub struct PasteBinding {
    pub accelerator: String,
    pub text: String,
}

/// The model of a binding.
pub struct BindingView {
    pub accelerator: Seq<char>,
    pub text: Seq<char>,
}

impl View for PasteBinding {
    type V = BindingView;

    open spec fn view(&self) -> BindingView {
        BindingView { accelerator: self.accelerator@, text: self.text@ }
    }
}

pub open spec fn binding_views(bindings: Seq<PasteBinding>) -> Seq<BindingView> {
    bindings.map_values(|b: PasteBinding| b@)
}

/// How `global_hotkey` reads an accelerator: the id of the shortcut that it names, or the
/// message that says why it names none.
pub uninterp spec fn shortcut_parse(accelerator: Seq<char>) -> Result<u32, Seq<char>>;

/// A result with its error text by its view.
pub open spec fn error_view(r: Result<u32, String>) -> Result<u32, Seq<char>> {
    match r {
        Ok(id) => Ok(id),
        Err(e) => Err(e@),
    }
}

/// `HotKey::from_str` of the `global_hotkey` crate, followed by `HotKey::id`. The id is made of
/// the modifier bits and the key code, so two accelerators have the same id exactly where they
/// name the same shortcut. The result depends on the text alone. Which accelerators parse, and
/// to which id, is left to the crate; it reads `CommandOrControl` as the target platform has it.
#[verifier::external_body]
pub(crate) fn parse_shortcut(accelerator: &str) -> (r: Result<u32, String>)
    ensures
        error_view(r) == shortcut_parse(accelerator@),
{
    match accelerator.parse::<global_hotkey::hotkey::HotKey>() {
        Ok(shortcut) => Ok(shortcut.id()),
        Err(e) => Err(e.to_string()),
    }
}

/// A shortcut that may be registered: its accelerator and its action. A binding's accelerator
/// has lost its surrounding white space.
pub struct Candidate {
    pub accelerator: Seq<char>,
    pub action: ActionView,
}

/// Everything that may be registered, in order: the GIF hotkey, then the bindings.
pub open spec fn candidates(gif: Seq<char>, bindings: Seq<BindingView>) -> Seq<Candidate> {
    Seq::new(
        bindings.len() + 1,
        |k: int|
            if k == 0 {
                Candidate { accelerator: gif, action: ActionView::GifCapture }
            } else {
                Candidate {
                    accelerator: trim(bindings[k - 1].accelerator),
                    action: ActionView::Paste(bindings[k - 1].text),
                }
            },
    )
}

/// The shortcut to register for candidate `k` when those in `taken` already have an action.
/// Empty, unreadable and taken accelerators of bindings are passed over.
pub open spec fn wanted(cands: Seq<Candidate>, k: int, taken: Set<u32>) -> Option<u32> {
    let accelerator = cands[k].accelerator;
    if k > 0 && accelerator.len() == 0 {
        None
    } else {
        match shortcut_parse(accelerator) {
            Err(_) => None,
            Ok(id) => if taken.contains(id) {
                None
            } else {
                Some(id)
            },
        }
    }
}

/// The actions in force once the first `n` candidates are through, where `outcomes[k]` says
/// whether the platform took the shortcut of candidate `k`.
pub open spec fn actions_after(cands: Seq<Candidate>, outcomes: Seq<bool>, n: nat) -> Map<
    u32,
    ActionView,
>
    decreases n,
{
    if n == 0 {
        Map::empty()
    } else {
        let before = actions_after(cands, outcomes, (n - 1) as nat);
        match wanted(cands, n - 1, before.dom()) {
            Some(id) if outcomes[n - 1] => before.insert(id, cands[n - 1].action),
            _ => before,
        }
    }
}

/// The model of a table of actions.
pub open spec fn actions_view(m: Map<u32, Action>) -> Map<u32, ActionView> {
    m.map_values(|a: Action| a@)
}

/// The first candidate from `from` on that has a shortcut to register, or the number of
/// candidates where none has.
pub open spec fn next_wanted(cands: Seq<Candidate>, from: int, taken: Set<u32>) -> int
    decreases cands.len() - from,
{
    if from >= cands.len() || wanted(cands, from, taken) is Some {
        from
    } else {
        next_wanted(cands, from + 1, taken)
    }
}

/// `n` negative answers.
pub open spec fn refusals(n: int) -> Seq<bool> {
    Seq::new(n as nat, |i: int| false)
}

/// The registration of all shortcuts, as a sequence of requests to the platform. `next` names
/// the accelerator to register, `report` takes the platform's answer, and so on until `next`
/// has none left.
pub struct Reapply {
    gif: String,
    bindings: Vec<PasteBinding>,
    gif_done: bool,
    at: usize,
    pending: Option<u32>,
    actions: HashMap<u32, Action>,
    outcomes: Ghost<Seq<bool>>,
}

impl Reapply {
    /// Everything that may be registered.
    pub closed spec fn cands(&self) -> Seq<Candidate> {
        candidates(self.gif@, binding_views(self.bindings@))
    }

    /// The platform's answers so far, one per candidate that is through; `false` for one that
    /// was passed over.
    pub closed spec fn answers(&self) -> Seq<bool> {
        self.outcomes@
    }

    /// Whether a registration was asked for and not answered yet. It is that of the candidate
    /// after those that are through.
    pub closed spec fn waiting(&self) -> bool {
        self.pending is Some
    }

    /// The actions in force.
    pub closed spec fn table(&self) -> Map<u32, ActionView> {
        actions_view(self.actions@)
    }

    closed spec fn done(&self) -> nat {
        if self.gif_done {
            self.at as nat + 1
        } else {
            0
        }
    }

    /// The state is one that a registration can be in.
    pub closed spec fn wf(&self) -> bool {
        &&& self.at <= self.bindings@.len()
        &&& !self.gif_done ==> self.at == 0
        &&& self.outcomes@.len() == self.done()
        &&& self.table() == actions_after(self.cands(), self.outcomes@, self.done())
        &&& self.pending matches Some(id) ==> self.done() < self.cands().len() && wanted(
            self.cands(),
            self.done() as int,
            self.table().dom(),
        ) == Some(id)
    }

    /// A registration in progress holds the actions that its answers so far amount to; the
    /// answers run at most to the last candidate, and one that is waited for is not the last.
    pub proof fn holds_what_was_answered(&self)
        requires
            self.wf(),
        ensures
            self.table() == actions_after(self.cands(), self.answers(), self.answers().len()),
            self.answers().len() <= self.cands().len(),
            self.waiting() ==> self.answers().len() < self.cands().len(),
    {
    }

    /// Starts over with nothing registered.
    pub fn start(gif: String, bindings: Vec<PasteBinding>) -> (r: Reapply)
        ensures
            r.wf(),
            r.cands() == candidates(gif@, binding_views(bindings@)),
            r.answers() == Seq::<bool>::empty(),
            !r.waiting(),
            r.table() == Map::<u32, ActionView>::empty(),
    {
        let r = Reapply {
            gif,
            bindings,
            gif_done: false,
            at: 0,
            pending: None,
            actions: HashMap::new(),
            outcomes: Ghost(Seq::empty()),
        };
        assert(r.table() =~= Map::<u32, ActionView>::empty());
        r
    }

    /// The id to register for the GIF hotkey (where it is the next candidate) or for the
    /// binding at `at`.
    fn candidate(&self) -> (r: (Option<u32>, String))
        requires
            self.wf(),
            self.done() < self.cands().len(),
        ensures
            r.0 == wanted(self.cands(), self.done() as int, self.table().dom()),
            r.1@ == self.cands()[self.done() as int].accelerator,
    {
        let accelerator = if self.gif_done {
            assert(binding_views(self.bindings@)[self.at as int] == self.bindings@[self.at
                as int]@);
            trimmed(self.bindings[self.at].accelerator.as_str())
        } else {
            self.gif.clone()
        };
        if self.gif_done && accelerator.as_str().is_empty() {
            return (None, accelerator);
        }
        match parse_shortcut(accelerator.as_str()) {
            Err(_) => (None, accelerator),
            Ok(id) => {
                if self.actions.contains_key(&id) {
                    (None, accelerator)
                } else {
                    (Some(id), accelerator)
                }
            },
        }
    }

    /// Notes the answer for the next candidate and moves on.
    fn advance(&mut self, registered: bool)
        requires
            old(self).wf(),
            old(self).done() < old(self).cands().len(),
            registered ==> old(self).waiting(),
            !registered ==> old(self).waiting() || wanted(
                old(self).cands(),
                old(self).done() as int,
                old(self).table().dom(),
            ) is None,
        ensures
            final(self).wf(),
            final(self).cands() == old(self).cands(),
            final(self).answers() == old(self).answers().push(registered),
            final(self).done() == old(self).done() + 1,
            !final(self).waiting(),
    {
        let ghost before = *self;
        let ghost n = self.done();
        let ghost outcomes = self.outcomes@.push(registered);
        proof {
            lemma_actions_prefix(self.cands(), self.outcomes@, outcomes, n);
        }
        if let Some(id) = self.pending {
            if registered {
                let action = if self.gif_done {
                    assert(binding_views(self.bindings@)[self.at as int] == self.bindings@[self.at
                        as int]@);
                    Action::Paste(self.bindings[self.at].text.clone())
                } else {
                    Action::GifCapture
                };
                let ghost acted = action@;
                self.actions.insert(id, action);
                assert(self.table() =~= before.table().insert(id, acted));
            }
        }
        self.pending = None;
        self.outcomes = Ghost(outcomes);
        if self.gif_done {
            assert(self.at < self.bindings.len());
            self.at = self.at + 1;
        } else {
            self.gif_done = true;
        }
        assert(self.cands() == before.cands());
        assert(self.done() == n + 1);
    }

    /// The accelerator to register next, if any is left.
    pub fn next(&mut self) -> (r: Option<String>)
        requires
            old(self).wf(),
            !old(self).waiting(),
        ensures
            final(self).wf(),
            final(self).cands() == old(self).cands(),
            final(self).table() == old(self).table(),
            ({
                let cands = old(self).cands();
                let from = old(self).answers().len() as int;
                let k = next_wanted(cands, from, old(self).table().dom());
                &&& final(self).answers() == old(self).answers() + refusals(k - from)
                &&& final(self).waiting() == (k < cands.len())
                &&& r is Some <==> k < cands.len()
                &&& r matches Some(a) ==> a@ == cands[k].accelerator
            }),
            r is None ==> final(self).answers().len() == final(self).cands().len(),
    {
        let ghost first = *self;
        let ghost from = self.answers().len() as int;
        let ghost k = next_wanted(self.cands(), from, self.table().dom());
        assert(self.answers() + refusals(0) =~= self.answers());
        while !self.gif_done || self.at < self.bindings.len()
            invariant
                self.wf(),
                !self.waiting(),
                self.cands() == first.cands(),
                self.table() == first.table(),
                first == *old(self),
                from == first.answers().len(),
                from <= self.done() <= self.cands().len(),
                self.answers() == first.answers() + refusals(self.done() - from),
                k == next_wanted(self.cands(), self.done() as int, self.table().dom()),
                k == next_wanted(first.cands(), from, first.table().dom()),
            decreases self.cands().len() - self.done(),
        {
            let (id, accelerator) = self.candidate();
            match id {
                Some(id) => {
                    self.pending = Some(id);
                    assert(self.cands() == first.cands());
                    return Some(accelerator);
                },
                None => {
                    let ghost before = *self;
                    self.advance(false);
                    proof {
                        self.holds_what_was_answered();
                        lemma_actions_prefix(
                            self.cands(),
                            before.answers(),
                            self.answers(),
                            before.done(),
                        );
                        assert(self.answers() =~= first.answers() + refusals(
                            self.done() - from,
                        ));
                    }
                },
            }
        }
        None
    }

    /// Takes the platform's answer to the registration that `next` asked for.
    pub fn report(&mut self, registered: bool)
        requires
            old(self).wf(),
            old(self).waiting(),
        ensures
            final(self).wf(),
            !final(self).waiting(),
            final(self).cands() == old(self).cands(),
            final(self).answers() == old(self).answers().push(registered),
    {
        self.advance(registered);
    }

    /// The actions in force, once `next` has nothing left to register.
    pub fn finish(self) -> (r: HashMap<u32, Action>)
        requires
            self.wf(),
            self.answers().len() == self.cands().len(),
        ensures
            actions_view(r@) == actions_after(self.cands(), self.answers(), self.cands().len()),
    {
        self.actions
    }
}

/// Later answers do not change what earlier ones amount to.
proof fn lemma_actions_prefix(cands: Seq<Candidate>, a: Seq<bool>, b: Seq<bool>, n: nat)
    requires
        n <= a.len(),
        n <= b.len(),
        forall|i: int| 0 <= i < n ==> a[i] == b[i],
    ensures
        actions_after(cands, a, n) == actions_after(cands, b, n),
    decreases n,
{
    if n > 0 {
        lemma_actions_prefix(cands, a, b, (n - 1) as nat);
    }
}

/// Actions are never dropped or replaced while the registration goes on.
pub proof fn actions_are_kept(cands: Seq<Candidate>, outcomes: Seq<bool>, n: nat, m: nat)
    requires
        n <= m,
    ensures
        actions_after(cands, outcomes, n).submap_of(actions_after(cands, outcomes, m)),
    decreases m,
{
    if n < m {
        let k = (m - 1) as nat;
        actions_are_kept(cands, outcomes, n, k);
        let first = actions_after(cands, outcomes, n);
        let before = actions_after(cands, outcomes, k);
        let after = actions_after(cands, outcomes, m);
        assert(before.submap_of(after)) by {
            assert forall|id: u32| #[trigger] before.dom().contains(id) implies after.dom().contains(
                id,
            ) && before[id] == after[id] by {
                assert(wanted(cands, m - 1, before.dom()) != Some(id));
            }
        }
        assert forall|id: u32| #[trigger] first.dom().contains(id) implies after.dom().contains(id)
            && first[id] == after[id] by {
            assert(before.dom().contains(id) && first[id] == before[id]);
        }
    }
}

/// The GIF hotkey wins any collision: once the platform has taken it, it captures a frame,
/// whatever the bindings ask for.
pub proof fn gif_hotkey_wins(
    gif: Seq<char>,
    bindings: Seq<BindingView>,
    outcomes: Seq<bool>,
    id: u32,
    n: nat,
)
    requires
        shortcut_parse(gif) == Ok::<u32, Seq<char>>(id),
        1 <= n <= outcomes.len(),
        outcomes[0],
    ensures
        actions_after(candidates(gif, bindings), outcomes, n).contains_pair(
            id,
            ActionView::GifCapture,
        ),
{
    let cands = candidates(gif, bindings);
    assert(actions_after(cands, outcomes, 0) == Map::<u32, ActionView>::empty());
    assert(wanted(cands, 0, Set::<u32>::empty()) == Some(id));
    assert(actions_after(cands, outcomes, 0).dom() =~= Set::<u32>::empty());
    assert(actions_after(cands, outcomes, 1).contains_pair(id, ActionView::GifCapture));
    actions_are_kept(cands, outcomes, 1, n);
}

/// Candidate `k` is one that the platform could be asked to register as `id`.
pub open spec fn names(cands: Seq<Candidate>, k: int, id: u32) -> bool {
    &&& k == 0 || cands[k].accelerator.len() > 0
    &&& shortcut_parse(cands[k].accelerator) == Ok::<u32, Seq<char>>(id)
}

/// A shortcut acts exactly where the platform took it for some candidate, and then as the first
/// such candidate says: an earlier candidate wins over a later one with the same shortcut.
pub proof fn first_taken_candidate_acts(cands: Seq<Candidate>, outcomes: Seq<bool>, n: nat, id: u32)
    requires
        n <= cands.len(),
        n <= outcomes.len(),
    ensures
        actions_after(cands, outcomes, n).dom().contains(id) <==> exists|k: int|
            0 <= k < n && #[trigger] names(cands, k, id) && outcomes[k],
        forall|k: int|
            0 <= k < n && #[trigger] names(cands, k, id) && outcomes[k] && (forall|j: int|
                0 <= j < k && #[trigger] names(cands, j, id) ==> !outcomes[j])
                ==> actions_after(cands, outcomes, n)[id] == cands[k].action,
    decreases n,
{
    if n > 0 {
        let m = (n - 1) as nat;
        first_taken_candidate_acts(cands, outcomes, m, id);
        let before = actions_after(cands, outcomes, m);
        let after = actions_after(cands, outcomes, n);
        let last = n - 1;
        if names(cands, last, id) && outcomes[last] {
            assert(after.dom().contains(id));
            if !before.dom().contains(id) {
                assert(after[id] == cands[last].action);
            }
        }
        assert forall|k: int|
            0 <= k < n && #[trigger] names(cands, k, id) && outcomes[k] && (forall|j: int|
                0 <= j < k && #[trigger] names(cands, j, id) ==> !outcomes[j]) implies after[id]
            == cands[k].action by {
            if k == last {
                assert(!before.dom().contains(id));
            } else {
                assert(before.dom().contains(id));
                assert(before[id] == cands[k].action);
            }
        }
        if after.dom().contains(id) {
            if before.dom().contains(id) {
                let k = choose|k: int| 0 <= k < m && #[trigger] names(cands, k, id) && outcomes[k];
                assert(names(cands, k, id) && outcomes[k]);
            } else {
                assert(names(cands, last, id) && outcomes[last]);
            }
        }
        if exists|k: int| 0 <= k < n && #[trigger] names(cands, k, id) && outcomes[k] {
            let k = choose|k: int| 0 <= k < n && #[trigger] names(cands, k, id) && outcomes[k];
            if k < m {
                assert(names(cands, k, id));
                assert(before.dom().contains(id));
            }
        }
    }
}

/// What a shortcut event does: only a press acts, and only where the shortcut has an action.
pub fn on_shortcut(actions: &HashMap<u32, Action>, id: u32, pressed: bool) -> (r: Option<Action>)
    ensures
        r is Some <==> pressed && actions@.dom().contains(id),
        r matches Some(action) ==> action@ == actions_view(actions@)[id],
{
    if !pressed {
        return None;
    }
    match actions.get(&id) {
        Some(action) => Some(action.copy()),
        None => None,
    }
}

// ---------- What is asked of the platform ----------

/// The GIF hotkey comes first, as it was set, and captures a frame; the bindings follow in their
/// order, each with its accelerator without surrounding white space and its text.
pub proof fn candidates_come_in_order(gif: Seq<char>, bindings: Seq<BindingView>, k: int)
    ensures
        candidates(gif, bindings).len() == bindings.len() + 1,
        candidates(gif, bindings)[0].accelerator == gif,
        candidates(gif, bindings)[0].action == ActionView::GifCapture,
        0 <= k < bindings.len() ==> candidates(gif, bindings)[k + 1].accelerator == trim(
            bindings[k].accelerator,
        ) && candidates(gif, bindings)[k + 1].action == ActionView::Paste(bindings[k].text),
{
}

/// A candidate is registered exactly where its accelerator names a shortcut that has no action yet
/// and, for a binding, is not empty; and then as that shortcut.
pub proof fn free_shortcuts_are_wanted(cands: Seq<Candidate>, k: int, taken: Set<u32>, id: u32)
    ensures
        wanted(cands, k, taken) == Some(id) <==> shortcut_parse(cands[k].accelerator) == Ok::<
            u32,
            Seq<char>,
        >(id) && !taken.contains(id) && (k > 0 ==> cands[k].accelerator.len() > 0),
        names(cands, k, id) <==> shortcut_parse(cands[k].accelerator) == Ok::<u32, Seq<char>>(id)
            && (k == 0 || cands[k].accelerator.len() > 0),
{
}

/// No candidate is passed over that could be registered: between where the search starts and the
/// candidate that it finds, none is wanted, and that one is, unless all are through.
pub proof fn no_wanted_candidate_is_passed_over(cands: Seq<Candidate>, from: int, taken: Set<u32>)
    requires
        0 <= from <= cands.len(),
    ensures
        from <= next_wanted(cands, from, taken) <= cands.len(),
        forall|j: int|
            from <= j < next_wanted(cands, from, taken) ==> #[trigger] wanted(cands, j, taken) is None,
        next_wanted(cands, from, taken) < cands.len() ==> wanted(
            cands,
            next_wanted(cands, from, taken),
            taken,
        ) is Some,
    decreases cands.len() - from,
{
    if from < cands.len() && wanted(cands, from, taken) is None {
        no_wanted_candidate_is_passed_over(cands, from + 1, taken);
    }
}

/// One answer does one thing: a shortcut that the platform took gets its candidate's action, and a
/// refusal, or a candidate that is not wanted, changes nothing. At the start there are no actions.
pub proof fn one_answer_adds_one_action(cands: Seq<Candidate>, outcomes: Seq<bool>, n: nat)
    ensures
        actions_after(cands, outcomes, 0).dom() == Set::<u32>::empty(),
        ({
            let before = actions_after(cands, outcomes, n);
            let after = actions_after(cands, outcomes, n + 1);
            let id = wanted(cands, n as int, before.dom());
            &&& id is None || !outcomes[n as int] ==> after == before
            &&& id is Some && outcomes[n as int] ==> after == before.insert(
                id->Some_0,
                cands[n as int].action,
            )
        }),
{
    assert(actions_after(cands, outcomes, 0).dom() =~= Set::<u32>::empty());
    let before = actions_after(cands, outcomes, n);
    match wanted(cands, n as int, before.dom()) {
        Some(id) => {},
        None => {},
    }
}

/// Actions, bindings and tables are seen as they are.
pub proof fn actions_are_seen_as_they_are(
    text: String,
    bindings: Seq<PasteBinding>,
    i: int,
    table: Map<u32, Action>,
    id: u32,
    e: String,
)
    ensures
        Action::GifCapture@ == ActionView::GifCapture,
        Action::Paste(text)@ == ActionView::Paste(text@),
        binding_views(bindings).len() == bindings.len(),
        0 <= i < bindings.len() ==> binding_views(bindings)[i].accelerator
            == bindings[i].accelerator@ && binding_views(bindings)[i].text == bindings[i].text@,
        actions_view(table).dom() == table.dom(),
        table.dom().contains(id) ==> actions_view(table)[id] == table[id]@,
        error_view(Ok(id)) == Ok::<u32, Seq<char>>(id),
        error_view(Err(e)) == Err::<u32, Seq<char>>(e@),
        i >= 0 ==> refusals(i).len() == i,
        forall|k: int| 0 <= k < i ==> !(#[trigger] refusals(i)[k]),
{
    assert(actions_view(table).dom() =~= table.dom());
}

} // verus!
