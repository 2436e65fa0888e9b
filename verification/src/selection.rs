//! The wanted openings and how each screen of the run narrows them down:
//! environment, boss affixes and strategy requirements, the choice of an
//! environment or strategy card, and the laws the narrowing obeys.

use vstd::prelude::*;
use crate::text::{strs, has_sub, str_contains};
use crate::order::{strictly_sorted, insert_sorted_unique};
use rand::Rng;

verus! {

broadcast use vstd::seq_lib::group_seq_properties;

/// One wanted opening: the environments, strategies and boss affixes that
/// make a run acceptable. An empty list means "anything".
#[derive(Debug, Clone)]
pub struct OpeningConfig {
    pub env: Vec<String>,
    pub strategy: Vec<String>,
    pub affix: Vec<String>,
}

/// The model of an [`OpeningConfig`]: its three lists as character sequences.
pub struct OpeningView {
    pub env: Seq<Seq<char>>,
    pub strategy: Seq<Seq<char>>,
    pub affix: Seq<Seq<char>>,
}

impl View for OpeningConfig {
    type V = OpeningView;

    open spec fn view(&self) -> OpeningView {
        OpeningView { env: strs(self.env@), strategy: strs(self.strategy@), affix: strs(self.affix@) }
    }
}

/// The models of a list of openings.
pub open spec fn views(s: Seq<OpeningConfig>) -> Seq<OpeningView> {
    s.map_values(|o: OpeningConfig| o@)
}

/// Some pattern of `pats` occurs in `text`.
pub open spec fn hits_any(text: Seq<char>, pats: Seq<Seq<char>>) -> bool {
    exists|k: int| 0 <= k < pats.len() && has_sub(text, #[trigger] pats[k])
}

/// Some pattern of `pats` occurs in one of `texts`.
pub open spec fn hits_any_of(texts: Seq<Seq<char>>, pats: Seq<Seq<char>>) -> bool {
    exists|j: int| 0 <= j < texts.len() && hits_any(#[trigger] texts[j], pats)
}

/// The opening accepts the environment `env`.
pub open spec fn env_ok(o: OpeningView, env: Seq<char>) -> bool {
    o.env.len() == 0 || hits_any(env, o.env)
}

/// The opening accepts the boss affixes `affixes`.
pub open spec fn affix_ok(o: OpeningView, affixes: Seq<Seq<char>>) -> bool {
    o.affix.len() == 0 || exists|k: int| 0 <= k < o.affix.len() && hits_any_of_pat(affixes, #[trigger] o.affix[k])
}

/// The pattern `p` occurs in one of `texts`.
pub open spec fn hits_any_of_pat(texts: Seq<Seq<char>>, p: Seq<char>) -> bool {
    exists|j: int| 0 <= j < texts.len() && has_sub(#[trigger] texts[j], p)
}

/// The opening accepts the strategy `strategy`.
pub open spec fn strategy_ok(o: OpeningView, strategy: Seq<char>) -> bool {
    o.strategy.len() == 0 || hits_any(strategy, o.strategy)
}

pub open spec fn env_pred(env: Seq<char>) -> spec_fn(OpeningView) -> bool {
    |o: OpeningView| env_ok(o, env)
}

pub open spec fn affix_pred(affixes: Seq<Seq<char>>) -> spec_fn(OpeningView) -> bool {
    |o: OpeningView| affix_ok(o, affixes)
}

pub open spec fn strategy_pred(strategy: Seq<char>) -> spec_fn(OpeningView) -> bool {
    |o: OpeningView| strategy_ok(o, strategy)
}

/// Whether one of `pats` occurs in `text`.
fn contains_any(text: &String, pats: &Vec<String>) -> (b: bool)
    ensures
        b == hits_any(text@, strs(pats@)),
{
    let mut k: usize = 0;
    while k < pats.len()
        invariant
            k <= pats@.len(),
            forall|m: int| 0 <= m < k ==> !has_sub(text@, #[trigger] strs(pats@)[m]),
        decreases pats@.len() - k,
    {
        if str_contains(text.as_str(), pats[k].as_str()) {
            assert(has_sub(text@, strs(pats@)[k as int]));
            return true;
        }
        k = k + 1;
    }
    false
}

/// Whether `p` occurs in one of `texts`.
fn pattern_in_any(texts: &[String], p: &String) -> (b: bool)
    ensures
        b == hits_any_of_pat(strs(texts@), p@),
{
    let mut j: usize = 0;
    while j < texts.len()
        invariant
            j <= texts@.len(),
            forall|m: int| 0 <= m < j ==> !has_sub(#[trigger] strs(texts@)[m], p@),
        decreases texts@.len() - j,
    {
        if str_contains(texts[j].as_str(), p.as_str()) {
            assert(has_sub(strs(texts@)[j as int], p@));
            return true;
        }
        j = j + 1;
    }
    false
}

/// A fresh copy of a list of strings.
pub fn copy_strings(v: &[String]) -> (r: Vec<String>)
    ensures
        r@ == v@,
{
    let mut r: Vec<String> = Vec::new();
    let mut i: usize = 0;
    while i < v.len()
        invariant
            i <= v@.len(),
            r@ == v@.subrange(0, i as int),
        decreases v@.len() - i,
    {
        r.push(v[i].clone());
        i = i + 1;
        assert(r@ =~= v@.subrange(0, i as int));
    }
    assert(r@ =~= v@);
    r
}

impl OpeningConfig {
    pub fn new(env: Vec<String>, strategy: Vec<String>, affix: Vec<String>) -> (r: Self)
        ensures
            r.env@ == env@,
            r.strategy@ == strategy@,
            r.affix@ == affix@,
    {
        OpeningConfig { env, strategy, affix }
    }

    pub fn has_env_requirement(&self) -> (b: bool)
        ensures
            b == (self@.env.len() > 0),
    {
        !self.env.is_empty()
    }

    pub fn has_affix_requirement(&self) -> (b: bool)
        ensures
            b == (self@.affix.len() > 0),
    {
        !self.affix.is_empty()
    }

    pub fn has_strategy_requirement(&self) -> (b: bool)
        ensures
            b == (self@.strategy.len() > 0),
    {
        !self.strategy.is_empty()
    }

    /// Accepts when no environment is required, or when one of the wanted
    /// environments occurs in `current_env`.
    pub fn check_env(&self, current_env: &str) -> (b: bool)
        ensures
            b == env_ok(self@, current_env@),
    {
        if !self.has_env_requirement() {
            return true;
        }
        let cur = String::from_str(current_env);
        contains_any(&cur, &self.env)
    }

    /// Accepts when no affix is required, or when one of the wanted affixes
    /// occurs in one of `current_affixes`.
    pub fn check_affix(&self, current_affixes: &[String]) -> (b: bool)
        ensures
            b == affix_ok(self@, strs(current_affixes@)),
    {
        if !self.has_affix_requirement() {
            return true;
        }
        let mut k: usize = 0;
        while k < self.affix.len()
            invariant
                k <= self@.affix.len(),
                forall|m: int| 0 <= m < k ==> !hits_any_of_pat(strs(current_affixes@), #[trigger] self@.affix[m]),
            decreases self@.affix.len() - k,
        {
            if pattern_in_any(current_affixes, &self.affix[k]) {
                assert(hits_any_of_pat(strs(current_affixes@), self@.affix[k as int]));
                return true;
            }
            k = k + 1;
        }
        false
    }

    /// Accepts when no strategy is required, or when one of the wanted
    /// strategies occurs in `current_strategy`.
    pub fn check_strategy(&self, current_strategy: &str) -> (b: bool)
        ensures
            b == strategy_ok(self@, current_strategy@),
    {
        if !self.has_strategy_requirement() {
            return true;
        }
        let cur = String::from_str(current_strategy);
        contains_any(&cur, &self.strategy)
    }

    /// A copy with the same three lists.
    pub fn copied(&self) -> (r: Self)
        ensures
            r@ == self@,
    {
        OpeningConfig {
            env: copy_strings(self.env.as_slice()),
            strategy: copy_strings(self.strategy.as_slice()),
            affix: copy_strings(self.affix.as_slice()),
        }
    }
}


/// A fresh copy of a list of openings.
pub fn copy_openings(v: &Vec<OpeningConfig>) -> (r: Vec<OpeningConfig>)
    ensures
        views(r@) == views(v@),
{
    let mut r: Vec<OpeningConfig> = Vec::new();
    let mut i: usize = 0;
    while i < v.len()
        invariant
            i <= v@.len(),
            views(r@) == views(v@).subrange(0, i as int),
        decreases v@.len() - i,
    {
        let c = v[i].copied();
        let ghost before = r@;
        r.push(c);
        proof {
            assert(views(r@).len() == r@.len());
            assert(views(before).len() == before.len());
            assert forall|k: int| 0 <= k < r@.len() implies views(r@)[k] == views(v@)[k] by {
                if k < before.len() {
                    assert(r@[k] == before[k]);
                    assert(views(before)[k] == views(v@).subrange(0, i as int)[k]);
                }
            }
        }
        i = i + 1;
        assert(views(r@) =~= views(v@).subrange(0, i as int));
    }
    assert(views(v@).subrange(0, v@.len() as int) =~= views(v@));
    r
}

/// The openings of `v` whose flag in `keep` is set, in their order.
fn keep_flagged(v: &Vec<OpeningConfig>, keep: &Vec<bool>, Ghost(pred): Ghost<spec_fn(OpeningView) -> bool>) -> (r: Vec<
    OpeningConfig,
>)
    requires
        keep@.len() == v@.len(),
        forall|i: int| 0 <= i < v@.len() ==> keep@[i] == pred(#[trigger] views(v@)[i]),
    ensures
        views(r@) == views(v@).filter(pred),
{
    let mut r: Vec<OpeningConfig> = Vec::new();
    let mut i: usize = 0;
    assert(views(v@).take(0) =~= Seq::<OpeningView>::empty());
    reveal(Seq::filter);
    while i < v.len()
        invariant
            i <= v@.len(),
            keep@.len() == v@.len(),
            forall|i: int| 0 <= i < v@.len() ==> keep@[i] == pred(#[trigger] views(v@)[i]),
            views(r@) == views(v@).take(i as int).filter(pred),
        decreases v@.len() - i,
    {
        proof {
            assert(views(v@).take(i + 1) =~= views(v@).take(i as int).push(views(v@)[i as int]));
            views(v@).take(i as int).lemma_filter_push(views(v@)[i as int], pred);
        }
        if keep[i] {
            let c = v[i].copied();
            let ghost before = r@;
            r.push(c);
            proof {
                assert forall|k: int| 0 <= k < before.len() implies views(r@)[k] == views(before)[k] by {
                    assert(r@[k] == before[k]);
                }
            }
            assert(views(r@) =~= views(v@).take(i as int).filter(pred).push(views(v@)[i as int]));
        }
        i = i + 1;
    }
    assert(views(v@).take(v@.len() as int) =~= views(v@));
    r
}

/// Some wanted opening lists environment `t`.
pub open spec fn wanted_env(active: Seq<OpeningView>, t: Seq<char>) -> bool {
    exists|i: int, j: int| 0 <= i < active.len() && 0 <= j < active[i].env.len() && #[trigger] active[i].env[j] == t
}

/// Some wanted opening lists strategy `t`.
pub open spec fn wanted_strategy(active: Seq<OpeningView>, t: Seq<char>) -> bool {
    exists|i: int, j: int|
        0 <= i < active.len() && 0 <= j < active[i].strategy.len() && #[trigger] active[i].strategy[j] == t
}

/// The environment list, or the strategy list, of an opening.
pub open spec fn field_of(o: OpeningView, strategies: bool) -> Seq<Seq<char>> {
    if strategies { o.strategy } else { o.env }
}

pub open spec fn listed(active: Seq<OpeningView>, strategies: bool, t: Seq<char>) -> bool {
    exists|i: int, j: int|
        0 <= i < active.len() && 0 <= j < field_of(active[i], strategies).len()
            && #[trigger] field_of(active[i], strategies)[j] == t
}

spec fn listed_before(active: Seq<OpeningView>, strategies: bool, i: int, j: int, t: Seq<char>) -> bool {
    exists|a: int, b: int|
        0 <= a <= i && 0 <= b < field_of(active[a], strategies).len() && (a < i || b < j)
            && #[trigger] field_of(active[a], strategies)[b] == t
}

/// The distinct environments (or strategies) that the openings of `v` list,
/// in lexicographic order.
fn collect_sorted(v: &Vec<OpeningConfig>, strategies: bool) -> (r: Vec<String>)
    ensures
        strictly_sorted(strs(r@)),
        forall|t: Seq<char>| #[trigger] strs(r@).contains(t) <==> listed(views(v@), strategies, t),
{
    let mut r: Vec<String> = Vec::new();
    let ghost act = views(v@);
    let mut i: usize = 0;
    while i < v.len()
        invariant
            act == views(v@),
            i <= v@.len(),
            strictly_sorted(strs(r@)),
            forall|t: Seq<char>| #[trigger] strs(r@).contains(t) <==> listed_before(act, strategies, i as int, 0, t),
        decreases v@.len() - i,
    {
        let list: &Vec<String> = if strategies { &v[i].strategy } else { &v[i].env };
        assert(strs(list@) == field_of(act[i as int], strategies));
        let mut j: usize = 0;
        while j < list.len()
            invariant
                act == views(v@),
                i < v@.len(),
                strs(list@) == field_of(act[i as int], strategies),
                j <= list@.len(),
                strictly_sorted(strs(r@)),
                forall|t: Seq<char>| #[trigger] strs(r@).contains(t) <==> listed_before(act, strategies, i as int, j as int, t),
            decreases list@.len() - j,
        {
            let ghost before = strs(r@);
            insert_sorted_unique(&mut r, &list[j]);
            proof {
                assert forall|t: Seq<char>| #[trigger] strs(r@).contains(t) <==> listed_before(act, strategies, i as int, j + 1, t) by {
                    if listed_before(act, strategies, i as int, j + 1, t) {
                        let (a, b) = choose|a: int, b: int|
                            0 <= a <= i && 0 <= b < field_of(act[a], strategies).len() && (a < i || b < j + 1)
                                && #[trigger] field_of(act[a], strategies)[b] == t;
                        if !(a == i && b == j) {
                            assert(listed_before(act, strategies, i as int, j as int, t));
                        }
                    }
                    if listed_before(act, strategies, i as int, j as int, t) {
                        let (a, b) = choose|a: int, b: int|
                            0 <= a <= i && 0 <= b < field_of(act[a], strategies).len() && (a < i || b < j)
                                && #[trigger] field_of(act[a], strategies)[b] == t;
                        assert(field_of(act[a], strategies)[b] == t);
                    }
                    if t == list@[j as int]@ {
                        assert(field_of(act[i as int], strategies)[j as int] == t);
                    }
                }
            }
            j = j + 1;
        }
        proof {
            assert forall|t: Seq<char>| #[trigger] strs(r@).contains(t) <==> listed_before(act, strategies, i + 1, 0, t) by {
                if listed_before(act, strategies, i + 1, 0, t) {
                    let (a, b) = choose|a: int, b: int|
                        0 <= a <= i + 1 && 0 <= b < field_of(act[a], strategies).len() && (a < i + 1 || b < 0)
                            && #[trigger] field_of(act[a], strategies)[b] == t;
                    assert(listed_before(act, strategies, i as int, j as int, t));
                }
                if listed_before(act, strategies, i as int, j as int, t) {
                    let (a, b) = choose|a: int, b: int|
                        0 <= a <= i && 0 <= b < field_of(act[a], strategies).len() && (a < i || b < j)
                            && #[trigger] field_of(act[a], strategies)[b] == t;
                    assert(field_of(act[a], strategies)[b] == t);
                }
            }
        }
        i = i + 1;
    }
    proof {
        assert forall|t: Seq<char>| #[trigger] strs(r@).contains(t) <==> listed(act, strategies, t) by {
            if listed(act, strategies, t) {
                let (a, b) = choose|a: int, b: int|
                    0 <= a < act.len() && 0 <= b < field_of(act[a], strategies).len()
                        && #[trigger] field_of(act[a], strategies)[b] == t;
                assert(listed_before(act, strategies, i as int, 0, t));
            }
            if listed_before(act, strategies, i as int, 0, t) {
                let (a, b) = choose|a: int, b: int|
                    0 <= a <= i && 0 <= b < field_of(act[a], strategies).len() && (a < i || b < 0)
                        && #[trigger] field_of(act[a], strategies)[b] == t;
                assert(field_of(act[a], strategies)[b] == t);
            }
        }
    }
    r
}


/// Some index `i` of `names` satisfies `hit`.
pub open spec fn some_hit(names: Seq<Seq<char>>, hit: spec_fn(Seq<char>) -> bool) -> bool {
    exists|i: int| 0 <= i < names.len() && hit(#[trigger] names[i])
}

/// `i` is the first index of `names` that satisfies `hit`.
pub open spec fn first_hit(names: Seq<Seq<char>>, hit: spec_fn(Seq<char>) -> bool, i: int) -> bool {
    &&& 0 <= i < names.len()
    &&& hit(names[i])
    &&& forall|k: int| 0 <= k < i ==> !hit(#[trigger] names[k])
}

/// The first index of `names` that satisfies `hit` (meaningful when there is one).
pub open spec fn first_index(names: Seq<Seq<char>>, hit: spec_fn(Seq<char>) -> bool) -> int {
    choose|i: int| first_hit(names, hit, i)
}

/// A name that contains one of the environments that the openings list.
pub open spec fn env_target(active: Seq<OpeningView>) -> spec_fn(Seq<char>) -> bool {
    |name: Seq<char>| exists|t: Seq<char>| wanted_env(active, t) && has_sub(name, t)
}

/// A name that contains one of the strategies that the openings list.
pub open spec fn strategy_target(active: Seq<OpeningView>) -> spec_fn(Seq<char>) -> bool {
    |name: Seq<char>| exists|t: Seq<char>| wanted_strategy(active, t) && has_sub(name, t)
}

/// A name that contains one of the preferred environments.
pub open spec fn prefer_target(prefer: Seq<Seq<char>>) -> spec_fn(Seq<char>) -> bool {
    |name: Seq<char>| hits_any(name, prefer)
}

/// Which card a choice takes (`-1` for none) and why: the first name that
/// matches a wanted entry ("target"), else, where allowed, the first name
/// that matches a preferred entry ("prefer"), else the drawn index `pick`
/// ("random"), and nothing for an empty list.
pub open spec fn decide(
    names: Seq<Seq<char>>,
    target: spec_fn(Seq<char>) -> bool,
    prefer: spec_fn(Seq<char>) -> bool,
    use_prefer: bool,
    pick: int,
) -> (int, Seq<char>) {
    if some_hit(names, target) {
        (first_index(names, target), "target"@)
    } else if use_prefer && some_hit(names, prefer) {
        (first_index(names, prefer), "prefer"@)
    } else if names.len() > 0 {
        (pick, "random"@)
    } else {
        (-1, Seq::empty())
    }
}

/// The choice among environment cards.
pub open spec fn env_decision(
    active: Seq<OpeningView>,
    prefer: Seq<Seq<char>>,
    names: Seq<Seq<char>>,
    use_prefer: bool,
    pick: int,
) -> (int, Seq<char>) {
    decide(names, env_target(active), prefer_target(prefer), use_prefer, pick)
}

/// The choice among strategy cards.
pub open spec fn strategy_decision(active: Seq<OpeningView>, names: Seq<Seq<char>>, pick: int) -> (int, Seq<char>) {
    decide(names, strategy_target(active), prefer_target(Seq::empty()), false, pick)
}

/// A choice that needs the drawn index: no wanted (or allowed preferred)
/// entry matches and there is at least one name.
pub open spec fn needs_draw(
    names: Seq<Seq<char>>,
    target: spec_fn(Seq<char>) -> bool,
    prefer: spec_fn(Seq<char>) -> bool,
    use_prefer: bool,
) -> bool {
    !some_hit(names, target) && !(use_prefer && some_hit(names, prefer)) && names.len() > 0
}

/// There is at most one first hit.
pub proof fn lemma_first_hit_unique(names: Seq<Seq<char>>, hit: spec_fn(Seq<char>) -> bool, i: int, j: int)
    requires
        first_hit(names, hit, i),
        first_hit(names, hit, j),
    ensures
        i == j,
{
    if i < j {
        assert(!hit(names[i]));
    } else if j < i {
        assert(!hit(names[j]));
    }
}

proof fn lemma_first_index(names: Seq<Seq<char>>, hit: spec_fn(Seq<char>) -> bool, i: int)
    requires
        first_hit(names, hit, i),
    ensures
        first_index(names, hit) == i,
        some_hit(names, hit),
{
    let c = first_index(names, hit);
    lemma_first_hit_unique(names, hit, c, i);
}

/// The first name of `names` in which one of `pats` occurs.
fn find_first(names: &[String], pats: &Vec<String>, Ghost(hit): Ghost<spec_fn(Seq<char>) -> bool>) -> (r: Option<usize>)
    requires
        forall|t: Seq<char>| #[trigger] hit(t) == hits_any(t, strs(pats@)),
    ensures
        r matches Some(i) ==> first_hit(strs(names@), hit, i as int) && first_index(strs(names@), hit) == i,
        r is None ==> !some_hit(strs(names@), hit),
{
    let mut i: usize = 0;
    while i < names.len()
        invariant
            i <= names@.len(),
            forall|t: Seq<char>| #[trigger] hit(t) == hits_any(t, strs(pats@)),
            forall|k: int| 0 <= k < i ==> !hit(#[trigger] strs(names@)[k]),
        decreases names@.len() - i,
    {
        if contains_any(&names[i], pats) {
            proof {
                assert(hit(strs(names@)[i as int]));
                lemma_first_index(strs(names@), hit, i as int);
            }
            return Some(i);
        }
        i = i + 1;
    }
    None
}

/// The model of a [`SelectionManager`].
pub struct SelectionView {
    pub openings: Seq<OpeningView>,
    pub prefer_env: Seq<Seq<char>>,
    pub active: Seq<OpeningView>,
    pub current_env: Seq<char>,
    pub current_strategy: Seq<char>,
    pub current_affixes: Seq<Seq<char>>,
}

/// Keeps the configured openings and the ones still possible in this run,
/// together with what the run has shown so far.
pub struct SelectionManager {
    openings: Vec<OpeningConfig>,
    pub prefer_env: Vec<String>,
    pub active_openings: Vec<OpeningConfig>,
    pub current_env: String,
    pub current_strategy: String,
    pub current_affixes: Vec<String>,
}

impl View for SelectionManager {
    type V = SelectionView;

    closed spec fn view(&self) -> SelectionView {
        SelectionView {
            openings: views(self.openings@),
            prefer_env: strs(self.prefer_env@),
            active: views(self.active_openings@),
            current_env: self.current_env@,
            current_strategy: self.current_strategy@,
            current_affixes: strs(self.current_affixes@),
        }
    }
}

/// The state after choosing the card at `i` (none when `i < 0`): it becomes
/// the current one and, when asked, narrows the openings to those it allows.
pub open spec fn after_env_choice(old: SelectionView, names: Seq<Seq<char>>, i: int, update_state: bool) -> SelectionView {
    if i < 0 {
        old
    } else {
        SelectionView {
            current_env: names[i],
            active: if update_state { old.active.filter(env_pred(names[i])) } else { old.active },
            ..old
        }
    }
}

pub open spec fn after_strategy_choice(old: SelectionView, names: Seq<Seq<char>>, i: int, update_state: bool) -> SelectionView {
    if i < 0 {
        old
    } else {
        SelectionView {
            current_strategy: names[i],
            active: if update_state { old.active.filter(strategy_pred(names[i])) } else { old.active },
            ..old
        }
    }
}

/// `rand::thread_rng().gen_range(0..n)`: a uniformly drawn index below `n`.
/// Only that it is below `n` is claimed; which one comes is chance.
/// `gen_range` panics on an empty range, which `n > 0` rules out.
#[verifier::external_body]
fn random_below(n: usize) -> (r: usize)
    requires
        n > 0,
    ensures
        r < n,
{
    rand::thread_rng().gen_range(0..n)
}

impl SelectionManager {
    pub fn new(openings: Vec<OpeningConfig>, prefer_env: Vec<String>) -> (r: Self)
        ensures
            r@.openings == views(openings@),
            r@.active == views(openings@),
            r@.prefer_env == strs(prefer_env@),
            r@.current_env == Seq::<char>::empty(),
            r@.current_strategy == Seq::<char>::empty(),
            r@.current_affixes == Seq::<Seq<char>>::empty(),
            is_subsequence(r@.active, r@.openings),
    {
        let active_openings = copy_openings(&openings);
        let r = SelectionManager {
            openings,
            prefer_env,
            active_openings,
            current_env: String::new(),
            current_strategy: String::new(),
            current_affixes: Vec::new(),
        };
        assert(strs(r.current_affixes@) =~= Seq::<Seq<char>>::empty());
        proof {
            law_whole_list_is_a_subsequence(r@.openings);
        }
        r
    }

    /// Starts a new run: every configured opening is possible again and
    /// nothing has been seen.
    pub fn reset(&mut self)
        ensures
            final(self)@ == (SelectionView {
                active: old(self)@.openings,
                current_env: Seq::empty(),
                current_strategy: Seq::empty(),
                current_affixes: Seq::empty(),
                ..old(self)@
            }),
            is_subsequence(final(self)@.active, final(self)@.openings),
    {
        self.active_openings = copy_openings(&self.openings);
        self.current_env = String::new();
        self.current_strategy = String::new();
        self.current_affixes = Vec::new();
        assert(strs(self.current_affixes@) =~= Seq::<Seq<char>>::empty());
        proof {
            law_whole_list_is_a_subsequence(self@.openings);
        }
    }

    /// The distinct environments that the still possible openings want, in
    /// lexicographic order.
    pub fn get_all_wanted_envs(&self) -> (r: Vec<String>)
        ensures
            strictly_sorted(strs(r@)),
            forall|t: Seq<char>| #[trigger] strs(r@).contains(t) <==> wanted_env(self@.active, t),
    {
        let r = collect_sorted(&self.active_openings, false);
        proof {
            assert forall|t: Seq<char>| #[trigger] strs(r@).contains(t) <==> wanted_env(self@.active, t) by {
                if listed(self@.active, false, t) {
                    let (a, b) = choose|a: int, b: int|
                        0 <= a < self@.active.len() && 0 <= b < field_of(self@.active[a], false).len()
                            && #[trigger] field_of(self@.active[a], false)[b] == t;
                    assert(self@.active[a].env[b] == t);
                }
                if wanted_env(self@.active, t) {
                    let (a, b) = choose|a: int, b: int|
                        0 <= a < self@.active.len() && 0 <= b < self@.active[a].env.len()
                            && #[trigger] self@.active[a].env[b] == t;
                    assert(field_of(self@.active[a], false)[b] == t);
                }
            }
        }
        r
    }

    /// The distinct strategies that the still possible openings want, in
    /// lexicographic order.
    pub fn get_all_wanted_strategies(&self) -> (r: Vec<String>)
        ensures
            strictly_sorted(strs(r@)),
            forall|t: Seq<char>| #[trigger] strs(r@).contains(t) <==> wanted_strategy(self@.active, t),
    {
        let r = collect_sorted(&self.active_openings, true);
        proof {
            assert forall|t: Seq<char>| #[trigger] strs(r@).contains(t) <==> wanted_strategy(self@.active, t) by {
                if listed(self@.active, true, t) {
                    let (a, b) = choose|a: int, b: int|
                        0 <= a < self@.active.len() && 0 <= b < field_of(self@.active[a], true).len()
                            && #[trigger] field_of(self@.active[a], true)[b] == t;
                    assert(self@.active[a].strategy[b] == t);
                }
                if wanted_strategy(self@.active, t) {
                    let (a, b) = choose|a: int, b: int|
                        0 <= a < self@.active.len() && 0 <= b < self@.active[a].strategy.len()
                            && #[trigger] self@.active[a].strategy[b] == t;
                    assert(field_of(self@.active[a], true)[b] == t);
                }
            }
        }
        r
    }

    /// Keeps the openings that accept the environment `selected_env`, which
    /// becomes the current one; returns the openings kept.
    pub fn filter_by_env(&mut self, selected_env: &str) -> (r: Vec<OpeningConfig>)
        ensures
            final(self)@ == (SelectionView {
                active: old(self)@.active.filter(env_pred(selected_env@)),
                current_env: selected_env@,
                ..old(self)@
            }),
            views(r@) == final(self)@.active,
            is_subsequence(old(self)@.active, old(self)@.openings) ==> is_subsequence(
                final(self)@.active,
                final(self)@.openings,
            ),
    {
        proof {
            if is_subsequence(self@.active, self@.openings) {
                law_narrowing_keeps_a_subsequence(self@.active, self@.openings, env_pred(selected_env@));
            }
        }
        self.current_env = String::from_str(selected_env);
        let mut keep: Vec<bool> = Vec::new();
        let mut i: usize = 0;
        while i < self.active_openings.len()
            invariant
                i <= self.active_openings@.len(),
                keep@.len() == i,
                forall|k: int| 0 <= k < i ==> keep@[k] == env_ok(#[trigger] views(self.active_openings@)[k], selected_env@),
            decreases self.active_openings@.len() - i,
        {
            let b = self.active_openings[i].check_env(selected_env);
            keep.push(b);
            i = i + 1;
        }
        let kept = keep_flagged(&self.active_openings, &keep, Ghost(env_pred(selected_env@)));
        self.active_openings = kept;
        copy_openings(&self.active_openings)
    }

    /// Keeps the openings that accept the boss affixes `current_affixes`,
    /// which become the current ones; returns the openings kept.
    pub fn filter_by_affix(&mut self, current_affixes: &[String]) -> (r: Vec<OpeningConfig>)
        ensures
            final(self)@ == (SelectionView {
                active: old(self)@.active.filter(affix_pred(strs(current_affixes@))),
                current_affixes: strs(current_affixes@),
                ..old(self)@
            }),
            views(r@) == final(self)@.active,
            is_subsequence(old(self)@.active, old(self)@.openings) ==> is_subsequence(
                final(self)@.active,
                final(self)@.openings,
            ),
    {
        proof {
            if is_subsequence(self@.active, self@.openings) {
                law_narrowing_keeps_a_subsequence(self@.active, self@.openings, affix_pred(strs(current_affixes@)));
            }
        }
        self.current_affixes = copy_strings(current_affixes);
        let mut keep: Vec<bool> = Vec::new();
        let mut i: usize = 0;
        while i < self.active_openings.len()
            invariant
                i <= self.active_openings@.len(),
                keep@.len() == i,
                forall|k: int|
                    0 <= k < i ==> keep@[k] == affix_ok(#[trigger] views(self.active_openings@)[k], strs(current_affixes@)),
            decreases self.active_openings@.len() - i,
        {
            let b = self.active_openings[i].check_affix(current_affixes);
            keep.push(b);
            i = i + 1;
        }
        let kept = keep_flagged(&self.active_openings, &keep, Ghost(affix_pred(strs(current_affixes@))));
        self.active_openings = kept;
        copy_openings(&self.active_openings)
    }

    /// Keeps the openings that accept the strategy `selected_strategy`, which
    /// becomes the current one; returns the openings kept.
    pub fn filter_by_strategy(&mut self, selected_strategy: &str) -> (r: Vec<OpeningConfig>)
        ensures
            final(self)@ == (SelectionView {
                active: old(self)@.active.filter(strategy_pred(selected_strategy@)),
                current_strategy: selected_strategy@,
                ..old(self)@
            }),
            views(r@) == final(self)@.active,
            is_subsequence(old(self)@.active, old(self)@.openings) ==> is_subsequence(
                final(self)@.active,
                final(self)@.openings,
            ),
    {
        proof {
            if is_subsequence(self@.active, self@.openings) {
                law_narrowing_keeps_a_subsequence(self@.active, self@.openings, strategy_pred(selected_strategy@));
            }
        }
        self.current_strategy = String::from_str(selected_strategy);
        let mut keep: Vec<bool> = Vec::new();
        let mut i: usize = 0;
        while i < self.active_openings.len()
            invariant
                i <= self.active_openings@.len(),
                keep@.len() == i,
                forall|k: int|
                    0 <= k < i ==> keep@[k] == strategy_ok(#[trigger] views(self.active_openings@)[k], selected_strategy@),
            decreases self.active_openings@.len() - i,
        {
            let b = self.active_openings[i].check_strategy(selected_strategy);
            keep.push(b);
            i = i + 1;
        }
        let kept = keep_flagged(&self.active_openings, &keep, Ghost(strategy_pred(selected_strategy@)));
        self.active_openings = kept;
        copy_openings(&self.active_openings)
    }

    pub fn has_active_openings(&self) -> (b: bool)
        ensures
            b == (self@.active.len() > 0),
    {
        !self.active_openings.is_empty()
    }

    pub fn get_active_count(&self) -> (n: usize)
        ensures
            n == self@.active.len(),
    {
        self.active_openings.len()
    }

    /// Some configured opening requires an environment.
    pub fn has_wanted_envs(&self) -> (b: bool)
        ensures
            b == exists|i: int| 0 <= i < self@.openings.len() && #[trigger] self@.openings[i].env.len() > 0,
    {
        let mut i: usize = 0;
        while i < self.openings.len()
            invariant
                i <= self.openings@.len(),
                forall|k: int| 0 <= k < i ==> #[trigger] views(self.openings@)[k].env.len() == 0,
            decreases self.openings@.len() - i,
        {
            if self.openings[i].has_env_requirement() {
                assert(self@.openings[i as int].env.len() > 0);
                return true;
            }
            i = i + 1;
        }
        false
    }

    /// Some configured opening requires a strategy.
    pub fn has_wanted_strategies(&self) -> (b: bool)
        ensures
            b == exists|i: int| 0 <= i < self@.openings.len() && #[trigger] self@.openings[i].strategy.len() > 0,
    {
        let mut i: usize = 0;
        while i < self.openings.len()
            invariant
                i <= self.openings@.len(),
                forall|k: int| 0 <= k < i ==> #[trigger] views(self.openings@)[k].strategy.len() == 0,
            decreases self.openings@.len() - i,
        {
            if self.openings[i].has_strategy_requirement() {
                assert(self@.openings[i as int].strategy.len() > 0);
                return true;
            }
            i = i + 1;
        }
        false
    }

    /// Chooses an environment card among `env_names`, as [`env_decision`]
    /// says, taking `pick` where the choice is left to chance.
    pub fn select_env_with_pick(&mut self, env_names: &[String], use_prefer: bool, update_state: bool, pick: usize) -> (r: (
        i32,
        String,
        String,
    ))
        requires
            env_names@.len() == 0 || pick < env_names@.len(),
        ensures
            env_outcome(old(self)@, strs(env_names@), use_prefer, update_state, pick as int, r, final(self)@),
            is_subsequence(old(self)@.active, old(self)@.openings) ==> is_subsequence(
                final(self)@.active,
                final(self)@.openings,
            ),
    {
        let ghost names = strs(env_names@);
        let ghost old_view = self@;
        let wanted = self.get_all_wanted_envs();
        proof {
            lemma_target_patterns(self@.active, wanted@, false);
        }
        let found = find_first(env_names, &wanted, Ghost(env_target(self@.active)));
        let (i, reason) = match found {
            Some(i) => (i, String::from_str("target")),
            None => {
                let pref = if use_prefer {
                    find_first(env_names, &self.prefer_env, Ghost(prefer_target(self@.prefer_env)))
                } else {
                    None
                };
                match pref {
                    Some(i) => (i, String::from_str("prefer")),
                    None => {
                        if env_names.len() == 0 {
                            return (-1, String::new(), String::new());
                        }
                        (pick, String::from_str("random"))
                    },
                }
            },
        };
        let name = env_names[i].clone();
        self.current_env = env_names[i].clone();
        if update_state {
            self.filter_by_env(env_names[i].as_str());
        }
        let idx: i32 = i as i32;
        (idx, name, reason)
    }

    /// Chooses an environment card among `env_names`: the first one that
    /// matches a wanted environment, else (when `use_prefer`) the first that
    /// matches a preferred one, else one drawn at random.
    pub fn select_env(&mut self, env_names: &[String], use_prefer: bool, update_state: bool) -> (r: (i32, String, String))
        ensures
            exists|pick: int|
                (env_names@.len() == 0 || 0 <= pick < env_names@.len()) && env_outcome(
                    old(self)@,
                    strs(env_names@),
                    use_prefer,
                    update_state,
                    pick,
                    r,
                    final(self)@,
                ),
            is_subsequence(old(self)@.active, old(self)@.openings) ==> is_subsequence(
                final(self)@.active,
                final(self)@.openings,
            ),
    {
        let pick = if self.env_needs_draw(env_names, use_prefer) {
            random_below(env_names.len())
        } else {
            0
        };
        self.select_env_with_pick(env_names, use_prefer, update_state, pick)
    }

    /// Whether choosing among `env_names` is left to chance.
    pub fn env_needs_draw(&self, env_names: &[String], use_prefer: bool) -> (b: bool)
        ensures
            b == needs_draw(strs(env_names@), env_target(self@.active), prefer_target(self@.prefer_env), use_prefer),
    {
        let wanted = self.get_all_wanted_envs();
        proof {
            lemma_target_patterns(self@.active, wanted@, false);
        }
        if find_first(env_names, &wanted, Ghost(env_target(self@.active))).is_some() {
            return false;
        }
        if use_prefer && find_first(env_names, &self.prefer_env, Ghost(prefer_target(self@.prefer_env))).is_some() {
            return false;
        }
        env_names.len() > 0
    }

    /// Chooses a strategy card among `strategy_names`, as
    /// [`strategy_decision`] says, taking `pick` where the choice is left to chance.
    pub fn select_strategy_with_pick(&mut self, strategy_names: &[String], update_state: bool, pick: usize) -> (r: (
        i32,
        String,
        String,
    ))
        requires
            strategy_names@.len() == 0 || pick < strategy_names@.len(),
        ensures
            strategy_outcome(old(self)@, strs(strategy_names@), update_state, pick as int, r, final(self)@),
            is_subsequence(old(self)@.active, old(self)@.openings) ==> is_subsequence(
                final(self)@.active,
                final(self)@.openings,
            ),
    {
        let wanted = self.get_all_wanted_strategies();
        proof {
            lemma_target_patterns(self@.active, wanted@, true);
        }
        let found = find_first(strategy_names, &wanted, Ghost(strategy_target(self@.active)));
        let (i, reason) = match found {
            Some(i) => (i, String::from_str("target")),
            None => {
                if strategy_names.len() == 0 {
                    return (-1, String::new(), String::new());
                }
                (pick, String::from_str("random"))
            },
        };
        let name = strategy_names[i].clone();
        self.current_strategy = strategy_names[i].clone();
        if update_state {
            self.filter_by_strategy(strategy_names[i].as_str());
        }
        let idx: i32 = i as i32;
        (idx, name, reason)
    }

    /// Chooses a strategy card among `strategy_names`: the first one that
    /// matches a wanted strategy, else one drawn at random.
    pub fn select_strategy(&mut self, strategy_names: &[String], update_state: bool) -> (r: (i32, String, String))
        ensures
            exists|pick: int|
                (strategy_names@.len() == 0 || 0 <= pick < strategy_names@.len()) && strategy_outcome(
                    old(self)@,
                    strs(strategy_names@),
                    update_state,
                    pick,
                    r,
                    final(self)@,
                ),
            is_subsequence(old(self)@.active, old(self)@.openings) ==> is_subsequence(
                final(self)@.active,
                final(self)@.openings,
            ),
    {
        let pick = if self.strategy_needs_draw(strategy_names) {
            random_below(strategy_names.len())
        } else {
            0
        };
        self.select_strategy_with_pick(strategy_names, update_state, pick)
    }

    /// Whether choosing among `strategy_names` is left to chance.
    pub fn strategy_needs_draw(&self, strategy_names: &[String]) -> (b: bool)
        ensures
            b == needs_draw(strs(strategy_names@), strategy_target(self@.active), prefer_target(Seq::empty()), false),
    {
        let wanted = self.get_all_wanted_strategies();
        proof {
            lemma_target_patterns(self@.active, wanted@, true);
        }
        if find_first(strategy_names, &wanted, Ghost(strategy_target(self@.active))).is_some() {
            return false;
        }
        strategy_names.len() > 0
    }
}

/// The result and new state of an environment choice agree with
/// [`env_decision`] for the drawn index `pick`.
pub open spec fn env_outcome(
    old: SelectionView,
    names: Seq<Seq<char>>,
    use_prefer: bool,
    update_state: bool,
    pick: int,
    r: (i32, String, String),
    new: SelectionView,
) -> bool {
    let (i, reason) = env_decision(old.active, old.prefer_env, names, use_prefer, pick);
    &&& r.0 == i as i32
    &&& r.1@ == (if i < 0 { Seq::empty() } else { names[i] })
    &&& r.2@ == reason
    &&& new == after_env_choice(old, names, i, update_state)
}

/// The result and new state of a strategy choice agree with
/// [`strategy_decision`] for the drawn index `pick`.
pub open spec fn strategy_outcome(
    old: SelectionView,
    names: Seq<Seq<char>>,
    update_state: bool,
    pick: int,
    r: (i32, String, String),
    new: SelectionView,
) -> bool {
    let (i, reason) = strategy_decision(old.active, names, pick);
    &&& r.0 == i as i32
    &&& r.1@ == (if i < 0 { Seq::empty() } else { names[i] })
    &&& r.2@ == reason
    &&& new == after_strategy_choice(old, names, i, update_state)
}

proof fn lemma_target_patterns(active: Seq<OpeningView>, wanted: Seq<String>, strategies: bool)
    requires
        strategies ==> forall|t: Seq<char>| #[trigger] strs(wanted).contains(t) <==> wanted_strategy(active, t),
        !strategies ==> forall|t: Seq<char>| #[trigger] strs(wanted).contains(t) <==> wanted_env(active, t),
    ensures
        strategies ==> forall|t: Seq<char>| #[trigger] strategy_target(active)(t) == hits_any(t, strs(wanted)),
        !strategies ==> forall|t: Seq<char>| #[trigger] env_target(active)(t) == hits_any(t, strs(wanted)),
{
    let w = strs(wanted);
    if strategies {
        assert forall|t: Seq<char>| #[trigger] strategy_target(active)(t) == hits_any(t, w) by {
            if hits_any(t, w) {
                let k = choose|k: int| 0 <= k < w.len() && has_sub(t, #[trigger] w[k]);
                assert(w.contains(w[k]));
            }
            if strategy_target(active)(t) {
                let s = choose|s: Seq<char>| wanted_strategy(active, s) && has_sub(t, s);
                assert(w.contains(s));
                let k = choose|k: int| 0 <= k < w.len() && w[k] == s;
                assert(has_sub(t, w[k]));
            }
        }
    } else {
        assert forall|t: Seq<char>| #[trigger] env_target(active)(t) == hits_any(t, w) by {
            if hits_any(t, w) {
                let k = choose|k: int| 0 <= k < w.len() && has_sub(t, #[trigger] w[k]);
                assert(w.contains(w[k]));
            }
            if env_target(active)(t) {
                let s = choose|s: Seq<char>| wanted_env(active, s) && has_sub(t, s);
                assert(w.contains(s));
                let k = choose|k: int| 0 <= k < w.len() && w[k] == s;
                assert(has_sub(t, w[k]));
            }
        }
    }
}


/// `f` places each opening of `s` at a position of `t` holding it, the
/// positions increasing: `s` is `t` with some openings left out.
pub open spec fn embeds(s: Seq<OpeningView>, t: Seq<OpeningView>, f: Seq<int>) -> bool {
    &&& f.len() == s.len()
    &&& forall|i: int, j: int| 0 <= i < j < f.len() ==> #[trigger] f[i] < #[trigger] f[j]
    &&& forall|i: int| 0 <= i < f.len() ==> 0 <= #[trigger] f[i] < t.len() && s[i] == t[f[i]]
}

/// `s` is an order-keeping subsequence of `t`.
pub open spec fn is_subsequence(s: Seq<OpeningView>, t: Seq<OpeningView>) -> bool {
    exists|f: Seq<int>| embeds(s, t, f)
}

proof fn lemma_filter_embeds(s: Seq<OpeningView>, p: spec_fn(OpeningView) -> bool) -> (f: Seq<int>)
    ensures
        embeds(s.filter(p), s, f),
    decreases s.len(),
{
    reveal(Seq::filter);
    if s.len() == 0 {
        assert(s.filter(p) =~= Seq::<OpeningView>::empty());
        Seq::empty()
    } else {
        let rest = s.drop_last();
        let e = s.last();
        let g = lemma_filter_embeds(rest, p);
        assert(s =~= rest.push(e));
        rest.lemma_filter_push(e, p);
        if p(e) {
            let f = g.push(rest.len() as int);
            assert(forall|i: int| 0 <= i < g.len() ==> #[trigger] g[i] < rest.len());
            assert forall|i: int| 0 <= i < f.len() implies 0 <= #[trigger] f[i] < s.len() && s.filter(p)[i] == s[f[i]] by {
                if i < g.len() {
                    assert(f[i] == g[i]);
                }
            }
            f
        } else {
            g
        }
    }
}

proof fn lemma_embeds_compose(a: Seq<OpeningView>, b: Seq<OpeningView>, c: Seq<OpeningView>, g: Seq<int>, f: Seq<int>) -> (h: Seq<int>)
    requires
        embeds(a, b, g),
        embeds(b, c, f),
    ensures
        embeds(a, c, h),
{
    let h = Seq::new(g.len(), |i: int| f[g[i]]);
    assert forall|i: int, j: int| 0 <= i < j < h.len() implies #[trigger] h[i] < #[trigger] h[j] by {
        assert(g[i] < g[j]);
    }
    assert forall|i: int| 0 <= i < h.len() implies 0 <= #[trigger] h[i] < c.len() && a[i] == c[h[i]] by {
        assert(0 <= g[i] < b.len());
        assert(0 <= f[g[i]] < c.len());
    }
    h
}

proof fn lemma_embeds_len(s: Seq<OpeningView>, t: Seq<OpeningView>, f: Seq<int>, k: int)
    requires
        embeds(s, t, f),
        0 <= k < f.len(),
    ensures
        f[k] >= k,
    decreases k,
{
    if k > 0 {
        lemma_embeds_len(s, t, f, k - 1);
        assert(f[k - 1] < f[k]);
    }
}

/// A list is an order-keeping subsequence of itself: what `new` and `reset`
/// make the wanted openings.
pub proof fn law_whole_list_is_a_subsequence(s: Seq<OpeningView>)
    ensures
        is_subsequence(s, s),
{
    let f = Seq::new(s.len(), |i: int| i);
    assert(embeds(s, s, f));
}

/// Narrowing keeps the wanted openings an order-keeping subsequence of the
/// configured ones, so never more of them than are configured: every list
/// of wanted openings that `new`, `reset`, the `filter_by_*` and `select_*`
/// methods reach is one.
pub proof fn law_narrowing_keeps_a_subsequence(active: Seq<OpeningView>, openings: Seq<OpeningView>, p: spec_fn(OpeningView) -> bool)
    requires
        is_subsequence(active, openings),
    ensures
        is_subsequence(active.filter(p), openings),
        active.filter(p).len() <= openings.len(),
{
    let f = choose|f: Seq<int>| embeds(active, openings, f);
    let g = lemma_filter_embeds(active, p);
    let h = lemma_embeds_compose(active.filter(p), active, openings, g, f);
    assert(embeds(active.filter(p), openings, h));
    if h.len() > 0 {
        lemma_embeds_len(active.filter(p), openings, h, h.len() - 1);
    }
}

/// An opening accepts the environment taken exactly when it lists none, or
/// when one of the environments it lists occurs in the name taken (the name
/// holds the wanted text, not the other way round).
pub proof fn law_environment_accepted_when_a_listed_one_occurs_in_it(o: OpeningView, env: Seq<char>)
    ensures
        env_ok(o, env) <==> (o.env.len() == 0 || exists|k: int|
            0 <= k < o.env.len() && #[trigger] has_sub(env, o.env[k])),
{
}

/// An opening accepts the strategy taken exactly when it lists none, or when
/// one of the strategies it lists occurs in the name taken.
pub proof fn law_strategy_accepted_when_a_listed_one_occurs_in_it(o: OpeningView, strategy: Seq<char>)
    ensures
        strategy_ok(o, strategy) <==> (o.strategy.len() == 0 || exists|k: int|
            0 <= k < o.strategy.len() && #[trigger] has_sub(strategy, o.strategy[k])),
{
}

/// An opening accepts the boss affixes shown exactly when it lists none, or
/// when a single one of the affixes it lists occurs in one of those shown,
/// whatever its other listed affixes.
pub proof fn law_affixes_accepted_when_one_listed_affix_is_shown(o: OpeningView, affixes: Seq<Seq<char>>)
    ensures
        affix_ok(o, affixes) <==> (o.affix.len() == 0 || exists|k: int, j: int|
            0 <= k < o.affix.len() && 0 <= j < affixes.len() && #[trigger] has_sub(affixes[j], o.affix[k])),
{
    if o.affix.len() > 0 {
        if affix_ok(o, affixes) {
            let k = choose|k: int| 0 <= k < o.affix.len() && hits_any_of_pat(affixes, #[trigger] o.affix[k]);
            let j = choose|j: int| 0 <= j < affixes.len() && has_sub(#[trigger] affixes[j], o.affix[k]);
            assert(has_sub(affixes[j], o.affix[k]));
        }
        if exists|k: int, j: int| 0 <= k < o.affix.len() && 0 <= j < affixes.len() && #[trigger] has_sub(affixes[j], o.affix[k]) {
            let (k, j) = choose|k: int, j: int| 0 <= k < o.affix.len() && 0 <= j < affixes.len() && #[trigger] has_sub(affixes[j], o.affix[k]);
            assert(hits_any_of_pat(affixes, o.affix[k]));
        }
    }
}

/// Every opening that wants an environment occurring in the card taken as a
/// wanted one keeps being wanted when the openings narrow to that card.
pub proof fn law_target_card_keeps_the_openings_that_want_it(active: Seq<OpeningView>, name: Seq<char>, i: int, k: int)
    requires
        0 <= i < active.len(),
        0 <= k < active[i].env.len(),
        has_sub(name, active[i].env[k]),
    ensures
        active.filter(env_pred(name)).contains(active[i]),
{
    broadcast use vstd::seq_lib::group_filter_ensures;
    assert(env_ok(active[i], name));
    assert(env_pred(name)(active[i]));
}

/// Some wanted opening lists an environment that occurs in `name`.
proof fn lemma_env_target_is_a_listed_environment(active: Seq<OpeningView>, name: Seq<char>)
    ensures
        env_target(active)(name) <==> exists|a: int, k: int|
            0 <= a < active.len() && 0 <= k < active[a].env.len() && #[trigger] has_sub(name, active[a].env[k]),
{
    if env_target(active)(name) {
        let t = choose|t: Seq<char>| wanted_env(active, t) && has_sub(name, t);
        let (a, k) = choose|a: int, k: int| 0 <= a < active.len() && 0 <= k < active[a].env.len() && #[trigger] active[a].env[k] == t;
        assert(has_sub(name, active[a].env[k]));
    }
    if exists|a: int, k: int| 0 <= a < active.len() && 0 <= k < active[a].env.len() && #[trigger] has_sub(name, active[a].env[k]) {
        let (a, k) = choose|a: int, k: int| 0 <= a < active.len() && 0 <= k < active[a].env.len() && #[trigger] has_sub(name, active[a].env[k]);
        assert(wanted_env(active, active[a].env[k]));
    }
}

/// Some wanted opening lists a strategy that occurs in `name`.
proof fn lemma_strategy_target_is_a_listed_strategy(active: Seq<OpeningView>, name: Seq<char>)
    ensures
        strategy_target(active)(name) <==> exists|a: int, k: int|
            0 <= a < active.len() && 0 <= k < active[a].strategy.len() && #[trigger] has_sub(name, active[a].strategy[k]),
{
    if strategy_target(active)(name) {
        let t = choose|t: Seq<char>| wanted_strategy(active, t) && has_sub(name, t);
        let (a, k) = choose|a: int, k: int| 0 <= a < active.len() && 0 <= k < active[a].strategy.len() && #[trigger] active[a].strategy[k] == t;
        assert(has_sub(name, active[a].strategy[k]));
    }
    if exists|a: int, k: int| 0 <= a < active.len() && 0 <= k < active[a].strategy.len() && #[trigger] has_sub(name, active[a].strategy[k]) {
        let (a, k) = choose|a: int, k: int| 0 <= a < active.len() && 0 <= k < active[a].strategy.len() && #[trigger] has_sub(name, active[a].strategy[k]);
        assert(wanted_strategy(active, active[a].strategy[k]));
    }
}

/// Some wanted opening lists an environment that occurs in `name`.
pub open spec fn holds_wanted_env(active: Seq<OpeningView>, name: Seq<char>) -> bool {
    exists|a: int, k: int| 0 <= a < active.len() && 0 <= k < active[a].env.len() && #[trigger] has_sub(name, active[a].env[k])
}

/// Some wanted opening lists a strategy that occurs in `name`.
pub open spec fn holds_wanted_strategy(active: Seq<OpeningView>, name: Seq<char>) -> bool {
    exists|a: int, k: int|
        0 <= a < active.len() && 0 <= k < active[a].strategy.len() && #[trigger] has_sub(name, active[a].strategy[k])
}

/// One of the preferred environments occurs in `name`.
pub open spec fn holds_preferred(prefer: Seq<Seq<char>>, name: Seq<char>) -> bool {
    exists|k: int| 0 <= k < prefer.len() && #[trigger] has_sub(name, prefer[k])
}

/// The environment card chosen, said in terms of the names offered: when a
/// name holds an environment that a wanted opening lists, the first such
/// name is taken as a target; otherwise, where allowed, the first name that
/// holds a preferred environment; otherwise the card drawn; and with no
/// name at all, none.
pub proof fn law_environment_choice_by_the_names(
    active: Seq<OpeningView>,
    prefer: Seq<Seq<char>>,
    names: Seq<Seq<char>>,
    use_prefer: bool,
    pick: int,
)
    requires
        0 <= pick < names.len() || names.len() == 0,
    ensures
        ({
            let (i, reason) = env_decision(active, prefer, names, use_prefer, pick);
            &&& names.len() == 0 ==> i == -1 && reason == Seq::<char>::empty()
            &&& (exists|c: int| 0 <= c < names.len() && holds_wanted_env(active, names[c])) ==> reason == "target"@ && 0 <= i < names.len()
                && holds_wanted_env(active, names[i]) && forall|c: int| 0 <= c < i ==> !holds_wanted_env(active, names[c])
            &&& (forall|c: int| 0 <= c < names.len() ==> !holds_wanted_env(active, names[c])) && use_prefer && (exists|c: int|
                0 <= c < names.len() && holds_preferred(prefer, names[c])) ==> reason == "prefer"@ && 0 <= i < names.len() && holds_preferred(prefer, names[i])
                && forall|c: int| 0 <= c < i ==> !holds_preferred(prefer, names[c])
            &&& (forall|c: int| 0 <= c < names.len() ==> !holds_wanted_env(active, names[c])) && !(use_prefer && exists|c: int|
                0 <= c < names.len() && holds_preferred(prefer, names[c])) && names.len() > 0 ==> reason == "random"@ && i == pick
        }),
{
    let target = env_target(active);
    let pref = prefer_target(prefer);
    assert forall|c: int| 0 <= c < names.len() implies #[trigger] target(names[c]) == holds_wanted_env(active, names[c]) by {
        lemma_env_target_is_a_listed_environment(active, names[c]);
    }
    if some_hit(names, target) {
        lemma_first_index_is_first_hit(names, target);
    } else if use_prefer && some_hit(names, pref) {
        lemma_first_index_is_first_hit(names, pref);
    }
    assert forall|c: int| 0 <= c < names.len() implies #[trigger] pref(names[c]) == holds_preferred(prefer, names[c]) by {}
}

/// The strategy card chosen, said in terms of the names offered: the first
/// name that holds a strategy a wanted opening lists, else the card drawn,
/// and none without names.
pub proof fn law_strategy_choice_by_the_names(active: Seq<OpeningView>, names: Seq<Seq<char>>, pick: int)
    requires
        0 <= pick < names.len() || names.len() == 0,
    ensures
        ({
            let (i, reason) = strategy_decision(active, names, pick);
            &&& names.len() == 0 ==> i == -1 && reason == Seq::<char>::empty()
            &&& (exists|c: int| 0 <= c < names.len() && holds_wanted_strategy(active, names[c])) ==> reason == "target"@ && 0 <= i < names.len()
                && holds_wanted_strategy(active, names[i]) && forall|c: int| 0 <= c < i ==> !holds_wanted_strategy(active, names[c])
            &&& (forall|c: int| 0 <= c < names.len() ==> !holds_wanted_strategy(active, names[c])) && names.len() > 0 ==> reason == "random"@ && i == pick
        }),
{
    let target = strategy_target(active);
    assert forall|c: int| 0 <= c < names.len() implies #[trigger] target(names[c]) == holds_wanted_strategy(active, names[c]) by {
        lemma_strategy_target_is_a_listed_strategy(active, names[c]);
    }
    if some_hit(names, target) {
        lemma_first_index_is_first_hit(names, target);
    }
}

/// Narrowing the openings by the same screen twice keeps what narrowing once
/// kept: `s.filter(p).filter(p) == s.filter(p)`.
pub proof fn law_narrowing_idempotent(s: Seq<OpeningView>, p: spec_fn(OpeningView) -> bool)
    ensures
        s.filter(p).filter(p) == s.filter(p),
    decreases s.len(),
{
    reveal(Seq::filter);
    if s.len() > 0 {
        let rest = s.drop_last();
        let e = s.last();
        law_narrowing_idempotent(rest, p);
        assert(s =~= rest.push(e));
        rest.lemma_filter_push(e, p);
        if p(e) {
            rest.filter(p).lemma_filter_push(e, p);
        }
    }
}

/// The order in which two screens narrow the openings does not matter:
/// `s.filter(p).filter(q) == s.filter(q).filter(p)`.
pub proof fn law_narrowing_commutes(s: Seq<OpeningView>, p: spec_fn(OpeningView) -> bool, q: spec_fn(OpeningView) -> bool)
    ensures
        s.filter(p).filter(q) == s.filter(q).filter(p),
    decreases s.len(),
{
    reveal(Seq::filter);
    if s.len() > 0 {
        let rest = s.drop_last();
        let e = s.last();
        law_narrowing_commutes(rest, p, q);
        assert(s =~= rest.push(e));
        rest.lemma_filter_push(e, p);
        rest.lemma_filter_push(e, q);
        rest.filter(p).lemma_filter_push(e, q);
        rest.filter(q).lemma_filter_push(e, p);
    }
}

/// Narrowing never adds an opening: what is kept is no longer than before,
/// every kept opening passes the screen, and every opening that passes it
/// is kept.
pub proof fn law_narrowing_keeps_exactly_the_accepted(s: Seq<OpeningView>, p: spec_fn(OpeningView) -> bool)
    ensures
        s.filter(p).len() <= s.len(),
        forall|i: int| 0 <= i < s.filter(p).len() ==> p(#[trigger] s.filter(p)[i]) && s.contains(s.filter(p)[i]),
        forall|i: int| 0 <= i < s.len() && p(s[i]) ==> #[trigger] s.filter(p).contains(s[i]),
{
    broadcast use vstd::seq_lib::group_filter_ensures;
    assert forall|i: int| 0 <= i < s.filter(p).len() implies p(#[trigger] s.filter(p)[i]) && s.contains(
        s.filter(p)[i],
    ) by {
        s.lemma_filter_contains_rev(p, s.filter(p)[i]);
    }
}

/// An opening that lists no environment (affix, strategy) passes every
/// environment (affix, strategy) screen.
pub proof fn law_unconstrained_opening_passes(o: OpeningView, env: Seq<char>, affixes: Seq<Seq<char>>, strategy: Seq<char>)
    ensures
        o.env.len() == 0 ==> env_ok(o, env),
        o.affix.len() == 0 ==> affix_ok(o, affixes),
        o.strategy.len() == 0 ==> strategy_ok(o, strategy),
{
}

/// When a wanted (or, where allowed, a preferred) card is on offer, the
/// choice does not depend on chance: any two drawn indices give the same
/// decision.
pub proof fn law_choice_ignores_chance_when_a_card_matches(
    active: Seq<OpeningView>,
    prefer: Seq<Seq<char>>,
    names: Seq<Seq<char>>,
    use_prefer: bool,
    pick1: int,
    pick2: int,
)
    requires
        !needs_draw(names, env_target(active), prefer_target(prefer), use_prefer),
    ensures
        env_decision(active, prefer, names, use_prefer, pick1) == env_decision(active, prefer, names, use_prefer, pick2),
{
}

/// A wanted card beats a preferred one, and the card taken for a reason
/// has that reason: a "target" card holds a wanted environment, a "prefer"
/// card a preferred one, and no earlier card holds either.
pub proof fn law_choice_takes_first_matching_card(
    active: Seq<OpeningView>,
    prefer: Seq<Seq<char>>,
    names: Seq<Seq<char>>,
    use_prefer: bool,
    pick: int,
)
    requires
        0 <= pick < names.len() || names.len() == 0,
    ensures
        ({
            let (i, reason) = env_decision(active, prefer, names, use_prefer, pick);
            &&& names.len() == 0 <==> i == -1
            &&& names.len() > 0 ==> 0 <= i < names.len()
            &&& some_hit(names, env_target(active)) ==> reason == "target"@ && env_target(active)(names[i])
                && forall|k: int| 0 <= k < i ==> !env_target(active)(#[trigger] names[k])
            &&& (!some_hit(names, env_target(active)) && use_prefer && some_hit(names, prefer_target(prefer)))
                ==> reason == "prefer"@ && hits_any(names[i], prefer)
                && forall|k: int| 0 <= k < i ==> !hits_any(#[trigger] names[k], prefer)
        }),
{
    let target = env_target(active);
    let pref = prefer_target(prefer);
    if some_hit(names, target) {
        let w = choose|i: int| 0 <= i < names.len() && target(#[trigger] names[i]);
        lemma_some_first_hit(names, target, w);
    } else if use_prefer && some_hit(names, pref) {
        let w = choose|i: int| 0 <= i < names.len() && pref(#[trigger] names[i]);
        lemma_some_first_hit(names, pref, w);
        let i = first_index(names, pref);
        assert forall|k: int| 0 <= k < i implies !hits_any(#[trigger] names[k], prefer) by {
            assert(!pref(names[k]));
        }
    }
}

/// When some name satisfies `hit`, [`first_index`] names the first that does.
pub proof fn lemma_first_index_is_first_hit(names: Seq<Seq<char>>, hit: spec_fn(Seq<char>) -> bool)
    requires
        some_hit(names, hit),
    ensures
        first_hit(names, hit, first_index(names, hit)),
{
    let w = choose|i: int| 0 <= i < names.len() && hit(#[trigger] names[i]);
    lemma_some_first_hit(names, hit, w);
}

/// A hit at `w` means there is a first hit, at or before `w`.
proof fn lemma_some_first_hit(names: Seq<Seq<char>>, hit: spec_fn(Seq<char>) -> bool, w: int)
    requires
        0 <= w < names.len(),
        hit(names[w]),
    ensures
        first_hit(names, hit, first_index(names, hit)),
        first_index(names, hit) <= w,
    decreases w,
{
    if forall|k: int| 0 <= k < w ==> !hit(#[trigger] names[k]) {
        assert(first_hit(names, hit, w));
        lemma_first_index(names, hit, w);
    } else {
        let k = choose|k: int| 0 <= k < w && hit(#[trigger] names[k]);
        lemma_some_first_hit(names, hit, k);
    }
}

} // verus!
