//! The rule registry of one phase, and its scheduler.
//!
//! Rules are registered one after the other, each with the rules it has to
//! run before and after. [`Ruler::compile`] resolves this into one order: at
//! each step the rule registered first among those that may run next. So
//! rules that nothing relates keep the order of their registration, and the
//! same registrations always give the same order.
use vstd::prelude::*;

verus! {

/// The names of the rules.
#[derive(Debug, Clone, Copy, PartialEq, Eq, Structural)]
pub enum RuleId {
    /// Core phase: splits the source into blocks.
    BlockParser,
    /// Core phase: parses the text of each block.
    InlineParser,
    /// Core phase: disarms raw HTML tags that are not allowed.
    TagFilter,
    /// Core phase: gives headings their anchors.
    HeadingAnchors,
    /// Core phase: links footnote definitions back to their references.
    FootnoteBackrefs,
    /// Core phase: moves footnote definitions to the end of the document.
    FootnoteCollect,
    /// Core phase: notes on each node where in the source it came from.
    SourcePos,
    /// Block phase: footnote definitions.
    FootnoteDefinition,
    /// Block phase: link reference definitions. No rule of this library has
    /// this name; rules can ask to run before or after it.
    Reference,
    /// Block phase: headings written with `#`.
    Heading,
    /// Block phase: blocks of raw HTML.
    HtmlBlock,
    /// Block phase: paragraphs.
    Paragraph,
    /// Inline phase: code spans.
    Backticks,
    /// Inline phase: emphasis and the like, written with pairs of markers.
    EmphPair,
    /// Inline phase: links.
    Link,
    /// Inline phase: footnote references.
    FootnoteReference,
    /// Inline phase: footnotes written where they are referred to.
    FootnoteInline,
    /// Inline phase: raw HTML tags.
    HtmlInline,
}

/// One registered rule: its name, and the names of the rules that it has to
/// run before and after.
#[derive(Debug)]
pub struct RuleItem {
    pub mark: RuleId,
    pub before: Vec<RuleId>,
    pub after: Vec<RuleId>,
}

/// The mathematical content of a [`RuleItem`].
pub struct RuleModel {
    pub mark: RuleId,
    pub before: Seq<RuleId>,
    pub after: Seq<RuleId>,
}

impl View for RuleItem {
    type V = RuleModel;

    open spec fn view(&self) -> RuleModel {
        RuleModel { mark: self.mark, before: self.before@, after: self.after@ }
    }
}

/// The rules of one phase, in the order of their registration.
#[derive(Debug)]
pub struct Ruler {
    pub rules: Vec<RuleItem>,
}

/// The mathematical content of a list of rules.
pub open spec fn rules_model(rules: Seq<RuleItem>) -> Seq<RuleModel> {
    rules.map_values(|r: RuleItem| r@)
}

impl View for Ruler {
    type V = Seq<RuleModel>;

    open spec fn view(&self) -> Seq<RuleModel> {
        rules_model(self.rules@)
    }
}

/// Whether rule `i` has to run before rule `j`: `i` names `j` among the
/// rules after it, or `j` names `i` among the rules before it.
pub open spec fn must_precede(rules: Seq<RuleModel>, i: int, j: int) -> bool {
    &&& 0 <= i < rules.len()
    &&& 0 <= j < rules.len()
    &&& i != j
    &&& (rules[i].before.contains(rules[j].mark) || rules[j].after.contains(rules[i].mark))
}

/// Whether the constraints can all be met: the rules can be ranked so that
/// each rule ranks below every rule it has to run before. This is to say
/// that no chain of constraints leads from a rule back to itself.
pub open spec fn acyclic(rules: Seq<RuleModel>) -> bool {
    exists|rank: Seq<nat>| is_ranking(rules, rank)
}

/// Whether `rank` ranks each rule below every rule it has to run before.
pub open spec fn is_ranking(rules: Seq<RuleModel>, rank: Seq<nat>) -> bool {
    &&& rank.len() == rules.len()
    &&& forall|i: int, j: int| #[trigger] must_precede(rules, i, j) ==> rank[i] < rank[j]
}

/// Whether rule `i` may run next after the rules of `done`: it has not run,
/// and every rule that has to run before it has.
pub open spec fn may_run_next(rules: Seq<RuleModel>, done: Seq<usize>, i: int) -> bool {
    &&& 0 <= i < rules.len()
    &&& !done.contains(i as usize)
    &&& forall|j: int| #[trigger] must_precede(rules, j, i) ==> done.contains(j as usize)
}

/// Whether `order` is the resolved order of `rules`: it holds every rule,
/// and each place holds the rule registered first among those that may run
/// next after the rules of the places before it.
pub open spec fn is_resolved_order(rules: Seq<RuleModel>, order: Seq<usize>) -> bool {
    &&& order.len() == rules.len()
    &&& forall|k: int|
        0 <= k < order.len() ==> {
            &&& may_run_next(rules, order.take(k), #[trigger] order[k] as int)
            &&& forall|i: int| 0 <= i < order[k] ==> !may_run_next(rules, order.take(k), i)
        }
}

/// A set of constraints has at most one resolved order: registering the same
/// rules in the same order always resolves to the same order.
pub proof fn lemma_resolved_order_unique(rules: Seq<RuleModel>, a: Seq<usize>, b: Seq<usize>)
    requires
        is_resolved_order(rules, a),
        is_resolved_order(rules, b),
    ensures
        a == b,
{
    assert forall|k: int| 0 <= k <= a.len() implies a.take(k) == b.take(k) by {
        lemma_orders_agree(rules, a, b, k);
    }
    assert(a.take(a.len() as int) =~= a);
    assert(b.take(b.len() as int) =~= b);
}

proof fn lemma_orders_agree(rules: Seq<RuleModel>, a: Seq<usize>, b: Seq<usize>, k: int)
    requires
        is_resolved_order(rules, a),
        is_resolved_order(rules, b),
        0 <= k <= a.len(),
    ensures
        a.take(k) == b.take(k),
    decreases k,
{
    if k == 0 {
        assert(a.take(0) =~= b.take(0));
    } else {
        lemma_orders_agree(rules, a, b, k - 1);
        let x = a[k - 1];
        let y = b[k - 1];
        assert(may_run_next(rules, a.take(k - 1), x as int));
        assert(may_run_next(rules, b.take(k - 1), y as int));
        if x < y {
            assert(!may_run_next(rules, b.take(k - 1), x as int));
        } else if y < x {
            assert(!may_run_next(rules, a.take(k - 1), y as int));
        }
        assert(a.take(k) =~= a.take(k - 1).push(x));
        assert(b.take(k) =~= b.take(k - 1).push(y));
    }
}

/// A resolved order holds no rule twice.
pub proof fn lemma_resolved_order_distinct(rules: Seq<RuleModel>, order: Seq<usize>)
    requires
        is_resolved_order(rules, order),
    ensures
        forall|a: int, b: int| 0 <= a < b < order.len() ==> order[a] != order[b],
        forall|k: int| 0 <= k < order.len() ==> (#[trigger] order[k]) < rules.len(),
{
    assert forall|a: int, b: int| 0 <= a < b < order.len() implies order[a] != order[b] by {
        assert(may_run_next(rules, order.take(b), order[b] as int));
        assert(order.take(b)[a] == order[a]);
    }
    assert forall|k: int| 0 <= k < order.len() implies (#[trigger] order[k]) < rules.len() by {
        assert(may_run_next(rules, order.take(k), order[k] as int));
    }
}

/// A resolved order meets every constraint: a rule that has to run before
/// another stands before it.
pub proof fn lemma_resolved_order_sound(rules: Seq<RuleModel>, order: Seq<usize>, a: int, b: int)
    requires
        is_resolved_order(rules, order),
        0 <= a < order.len(),
        0 <= b < order.len(),
        must_precede(rules, order[a] as int, order[b] as int),
    ensures
        a < b,
{
    assert(may_run_next(rules, order.take(b), order[b] as int));
    let done = order.take(b);
    assert(done.contains(order[a]));
    let c = choose|c: int| 0 <= c < done.len() && done[c] == order[a];
    assert(order[c] == order[a]);
    lemma_resolved_order_distinct(rules, order);
    if c < a {
        assert(order[c] != order[a]);
    } else if a < c {
        assert(order[a] != order[c]);
    }
}

/// Rules that nothing tells apart keep the order of their registration: of
/// two rules, where the one registered later waits for every rule that the
/// one registered earlier waits for, the earlier one runs first. So rules
/// without constraints, and rules that all wait for the same rule, run in
/// the order in which they were registered, whatever other constraints the
/// registry holds.
pub proof fn lemma_registration_order_kept(
    rules: Seq<RuleModel>,
    order: Seq<usize>,
    i: int,
    j: int,
    a: int,
    b: int,
)
    requires
        is_resolved_order(rules, order),
        0 <= i < j < rules.len(),
        forall|k: int| #[trigger] must_precede(rules, k, i) ==> must_precede(rules, k, j),
        0 <= a < order.len(),
        0 <= b < order.len(),
        order[a] == i,
        order[b] == j,
    ensures
        a < b,
{
    lemma_resolved_order_distinct(rules, order);
    if b < a {
        let done = order.take(b);
        assert(may_run_next(rules, done, j));
        assert(!may_run_next(rules, done, i));
        if done.contains(i as usize) {
            let c = choose|c: int| 0 <= c < done.len() && done[c] == i as usize;
            assert(order[c] == order[a]);
        }
        let k = choose|k: int| #[trigger] must_precede(rules, k, i) && !done.contains(k as usize);
        assert(must_precede(rules, k, j));
    }
}

/// Where no rule has to run before another, the resolved order is the order
/// of registration.
pub proof fn lemma_unrelated_keep_registration_order(rules: Seq<RuleModel>, order: Seq<usize>)
    requires
        is_resolved_order(rules, order),
        forall|i: int, j: int| !must_precede(rules, i, j),
    ensures
        forall|k: int| 0 <= k < order.len() ==> order[k] == k,
{
    assert forall|k: int| 0 <= k < order.len() implies order[k] == k by {
        lemma_identity_prefix(rules, order, k);
    }
}

proof fn lemma_identity_prefix(rules: Seq<RuleModel>, order: Seq<usize>, k: int)
    requires
        is_resolved_order(rules, order),
        forall|i: int, j: int| !must_precede(rules, i, j),
        0 <= k < order.len(),
    ensures
        forall|m: int| 0 <= m <= k ==> order[m] == m,
    decreases k,
{
    if k > 0 {
        lemma_identity_prefix(rules, order, k - 1);
    }
    let done = order.take(k);
    assert(may_run_next(rules, done, order[k] as int));
    if order[k] < k {
        assert(done[order[k] as int] == order[k]);
        assert(done.contains(order[k]));
    } else if order[k] > k {
        assert(!may_run_next(rules, done, k));
        assert(done.contains(k as usize));
        let c = choose|c: int| 0 <= c < done.len() && done[c] == k as usize;
        assert(order[c] == c);
    }
}

/// The constraints of a registry lead from some rule back to itself, so no
/// order can meet them all.
#[derive(Debug, Clone, Copy, PartialEq, Eq, Structural)]
pub struct CyclicDependency;

/// How many entries of `s` are `true`.
spec fn count_true(s: Seq<bool>) -> nat
    decreases s.len(),
{
    if s.len() == 0 {
        0
    } else {
        count_true(s.drop_last()) + if s.last() {
            1nat
        } else {
            0nat
        }
    }
}

proof fn lemma_count_true(s: Seq<bool>)
    ensures
        count_true(s) <= s.len(),
        count_true(s) == s.len() <==> forall|i: int| 0 <= i < s.len() ==> s[i],
    decreases s.len(),
{
    if s.len() > 0 {
        lemma_count_true(s.drop_last());
        if count_true(s) == s.len() {
            assert forall|i: int| 0 <= i < s.len() implies s[i] by {
                if i < s.len() - 1 {
                    assert(s.drop_last()[i]);
                }
            }
        }
        if forall|i: int| 0 <= i < s.len() ==> s[i] {
            assert forall|i: int| 0 <= i < s.len() - 1 implies s.drop_last()[i] by {
                assert(s[i]);
            }
        }
    }
}

proof fn lemma_count_true_set(s: Seq<bool>, i: int)
    requires
        0 <= i < s.len(),
        !s[i],
    ensures
        count_true(s.update(i, true)) == count_true(s) + 1,
    decreases s.len(),
{
    let t = s.update(i, true);
    if i == s.len() - 1 {
        assert(t.drop_last() =~= s.drop_last());
    } else {
        assert(t.drop_last() =~= s.drop_last().update(i, true));
        lemma_count_true_set(s.drop_last(), i);
    }
}

/// Among the first `n` rules, one that has not run and ranks lowest of
/// those, if any has not run.
proof fn lemma_lowest_waiting(rank: Seq<nat>, placed: Seq<bool>, n: int) -> (m: int)
    requires
        rank.len() == placed.len(),
        0 <= n <= placed.len(),
        exists|i: int| 0 <= i < n && !placed[i],
    ensures
        0 <= m < n,
        !placed[m],
        forall|i: int| 0 <= i < n && !placed[i] ==> rank[m] <= rank[i],
    decreases n,
{
    if exists|i: int| 0 <= i < n - 1 && !placed[i] {
        let m0 = lemma_lowest_waiting(rank, placed, n - 1);
        if !placed[n - 1] && rank[n - 1] < rank[m0] {
            n - 1
        } else {
            m0
        }
    } else {
        n - 1
    }
}

/// Whether rule `i` is ready, given which rules have run: it has not, and
/// every rule that has to run before it has.
spec fn ready(rules: Seq<RuleModel>, placed: Seq<bool>, i: int) -> bool {
    &&& 0 <= i < rules.len()
    &&& !placed[i]
    &&& forall|j: int| #[trigger] must_precede(rules, j, i) ==> placed[j]
}

fn names(list: &Vec<RuleId>, mark: RuleId) -> (r: bool)
    ensures
        r == list@.contains(mark),
{
    let mut i: usize = 0;
    while i < list.len()
        invariant
            i <= list@.len(),
            forall|j: int| 0 <= j < i ==> list@[j] != mark,
        decreases list.len() - i,
    {
        if list[i] == mark {
            return true;
        }
        i = i + 1;
    }
    false
}

impl RuleItem {
    /// Asks that this rule run before the rules named `mark`.
    pub fn before(&mut self, mark: RuleId) -> (r: &mut RuleItem)
        ensures
            r@ == (RuleModel { before: old(self)@.before.push(mark), ..old(self)@ }),
            *final(self) == *final(r),
    {
        self.before.push(mark);
        self
    }

    /// Asks that this rule run after the rules named `mark`.
    pub fn after(&mut self, mark: RuleId) -> (r: &mut RuleItem)
        ensures
            r@ == (RuleModel { after: old(self)@.after.push(mark), ..old(self)@ }),
            *final(self) == *final(r),
    {
        self.after.push(mark);
        self
    }
}

impl Ruler {
    /// A registry without rules.
    pub fn new() -> (r: Ruler)
        ensures
            r@ == Seq::<RuleModel>::empty(),
    {
        let r = Ruler { rules: Vec::new() };
        assert(r@ =~= Seq::<RuleModel>::empty());
        r
    }

    /// Registers a rule named `mark`, after those registered so far, and
    /// hands it out so that its constraints can be added.
    pub fn add(&mut self, mark: RuleId) -> (r: &mut RuleItem)
        ensures
            r@ == (RuleModel { mark, before: Seq::empty(), after: Seq::empty() }),
            final(self)@ == old(self)@.push(final(r)@),
    {
        self.rules.push(RuleItem { mark, before: Vec::new(), after: Vec::new() });
        let n = self.rules.len();
        proof {
            let now = self.rules@;
            assert forall|x: RuleItem| #[trigger]
                rules_model(now.update(n - 1, x)) == old(self)@.push(x@) by {
                assert(rules_model(now.update(n - 1, x)) =~= old(self)@.push(x@));
            }
        }
        &mut self.rules[n - 1]
    }

    /// Whether a rule named `mark` is registered.
    pub fn contains(&self, mark: RuleId) -> (r: bool)
        ensures
            r == exists|i: int| 0 <= i < self@.len() && (#[trigger] self@[i]).mark == mark,
    {
        let mut i: usize = 0;
        while i < self.rules.len()
            invariant
                i <= self.rules@.len(),
                forall|j: int| 0 <= j < i ==> (#[trigger] self@[j]).mark != mark,
            decreases self.rules.len() - i,
        {
            if self.rules[i].mark == mark {
                assert(self@[i as int].mark == mark);
                return true;
            }
            i = i + 1;
        }
        false
    }

    fn precedes(&self, i: usize, j: usize) -> (r: bool)
        requires
            i < self.rules@.len(),
            j < self.rules@.len(),
        ensures
            r == must_precede(self@, i as int, j as int),
    {
        i != j && (names(&self.rules[i].before, self.rules[j].mark) || names(
            &self.rules[j].after,
            self.rules[i].mark,
        ))
    }

    fn is_ready(&self, placed: &Vec<bool>, i: usize) -> (r: bool)
        requires
            placed@.len() == self.rules@.len(),
            i < self.rules@.len(),
        ensures
            r == ready(self@, placed@, i as int),
    {
        if placed[i] {
            return false;
        }
        let n = self.rules.len();
        let mut j: usize = 0;
        while j < n
            invariant
                j <= n,
                n == self.rules@.len(),
                placed@.len() == n,
                i < n,
                forall|m: int| 0 <= m < j && must_precede(self@, m, i as int) ==> placed@[m],
            decreases n - j,
        {
            if self.precedes(j, i) && !placed[j] {
                return false;
            }
            j = j + 1;
        }
        true
    }

    fn first_ready(&self, placed: &Vec<bool>) -> (r: Option<usize>)
        requires
            placed@.len() == self.rules@.len(),
        ensures
            match r {
                Some(i) => ready(self@, placed@, i as int) && forall|m: int|
                    0 <= m < i ==> !ready(self@, placed@, m),
                None => forall|m: int| 0 <= m < self@.len() ==> !ready(self@, placed@, m),
            },
    {
        let n = self.rules.len();
        let mut i: usize = 0;
        while i < n
            invariant
                i <= n,
                n == self.rules@.len(),
                placed@.len() == n,
                forall|m: int| 0 <= m < i ==> !ready(self@, placed@, m),
            decreases n - i,
        {
            if self.is_ready(placed, i) {
                return Some(i);
            }
            i = i + 1;
        }
        None
    }

    /// Resolves the constraints into the order in which the rules run.
    ///
    /// Where the constraints can all be met, the resolved order comes back,
    /// as indices into the rules: it meets every constraint, and rules that
    /// nothing relates keep the order of their registration. Where they
    /// cannot, because a chain of constraints leads from a rule back to
    /// itself, the error comes back.
    pub fn compile(&self) -> (r: Result<Vec<usize>, CyclicDependency>)
        ensures
            match r {
                Ok(order) => is_resolved_order(self@, order@),
                Err(_) => true,
            },
            r is Ok <==> acyclic(self@),
    {
        let n = self.rules.len();
        let ghost rules = self@;
        let mut placed: Vec<bool> = Vec::new();
        while placed.len() < n
            invariant
                placed@.len() <= n,
                forall|i: int| 0 <= i < placed@.len() ==> !placed@[i],
                count_true(placed@) == 0,
            decreases n - placed.len(),
        {
            let ghost before = placed@;
            placed.push(false);
            assert(placed@.drop_last() =~= before);
        }
        let mut order: Vec<usize> = Vec::new();
        let ghost mut rank: Seq<nat> = Seq::new(n as nat, |i: int| 0nat);
        while order.len() < n
            invariant
                n == self.rules@.len(),
                rules == self@,
                placed@.len() == n,
                rank.len() == n,
                order@.len() <= n,
                count_true(placed@) == order@.len(),
                forall|i: int| 0 <= i < n ==> (#[trigger] placed@[i] <==> order@.contains(i as usize)),
                forall|k: int| 0 <= k < order@.len() ==> rank[#[trigger] order@[k] as int] == k,
                forall|k: int|
                    0 <= k < order@.len() ==> {
                        &&& may_run_next(rules, order@.take(k), #[trigger] order@[k] as int)
                        &&& forall|i: int|
                            0 <= i < order@[k] ==> !may_run_next(rules, order@.take(k), i)
                    },
            decreases n - order.len(),
        {
            proof {
                assert forall|i: int| 0 <= i < n implies ready(rules, placed@, i) == may_run_next(
                    rules,
                    order@,
                    i,
                ) by {
                    lemma_ready_is_may_run_next(rules, placed@, order@, i);
                }
            }
            match self.first_ready(&placed) {
                Some(i) => {
                    let ghost k = order@.len() as int;
                    let ghost old_order = order@;
                    let ghost old_placed = placed@;
                    proof {
                        lemma_count_true_set(placed@, i as int);
                    }
                    placed.set(i, true);
                    order.push(i);
                    proof {
                        rank = rank.update(i as int, k as nat);
                        assert(order@.take(k) =~= old_order);
                        assert forall|m: int| 0 <= m < n implies (#[trigger] placed@[m]
                            <==> order@.contains(m as usize)) by {
                            if m == i {
                                assert(order@[k] == i);
                            } else {
                                assert(placed@[m] == old_placed[m]);
                                if old_order.contains(m as usize) {
                                    let c = choose|c: int|
                                        0 <= c < old_order.len() && old_order[c] == m as usize;
                                    assert(order@[c] == m as usize);
                                }
                                if order@.contains(m as usize) {
                                    let c = choose|c: int|
                                        0 <= c < order@.len() && order@[c] == m as usize;
                                    assert(old_order[c] == m as usize);
                                }
                            }
                        }
                        assert forall|j: int| 0 <= j < order@.len() implies rank[#[trigger] order@[j] as int]
                            == j by {
                            if j < k {
                                assert(old_order[j] == order@[j]);
                                assert(old_order.contains(order@[j]));
                            }
                        }
                        assert forall|j: int| 0 <= j < order@.len() implies {
                            &&& may_run_next(rules, order@.take(j), #[trigger] order@[j] as int)
                            &&& forall|m: int|
                                0 <= m < order@[j] ==> !may_run_next(rules, order@.take(j), m)
                        } by {
                            if j < k {
                                assert(order@.take(j) =~= old_order.take(j));
                                assert(order@[j] == old_order[j]);
                            }
                        }
                    }
                },
                None => {
                    proof {
                        lemma_count_true(placed@);
                        assert forall|rk: Seq<nat>| !is_ranking(rules, rk) by {
                            if is_ranking(rules, rk) {
                                let m = lemma_lowest_waiting(rk, placed@, n as int);
                                assert forall|j: int| #[trigger]
                                    must_precede(rules, j, m) implies placed@[j] by {
                                    assert(rk[j] < rk[m]);
                                }
                                assert(ready(rules, placed@, m));
                            }
                        }
                    }
                    return Err(CyclicDependency);
                },
            }
        }
        proof {
            lemma_count_true(placed@);
            assert forall|i: int, j: int| #[trigger] must_precede(rules, i, j) implies rank[i]
                < rank[j] by {
                assert(placed@[j]);
                assert(order@.contains(j as usize));
                let b = choose|b: int| 0 <= b < order@.len() && order@[b] == j as usize;
                assert(may_run_next(rules, order@.take(b), j));
                let done = order@.take(b);
                assert(done.contains(i as usize));
                let c = choose|c: int| 0 <= c < done.len() && done[c] == i as usize;
                assert(order@[c] == i as usize);
            }
            assert(is_ranking(rules, rank));
        }
        Ok(order)
    }
}

proof fn lemma_ready_is_may_run_next(
    rules: Seq<RuleModel>,
    placed: Seq<bool>,
    order: Seq<usize>,
    i: int,
)
    requires
        placed.len() == rules.len(),
        0 <= i < rules.len(),
        forall|m: int| 0 <= m < rules.len() ==> (#[trigger] placed[m] <==> order.contains(m as usize)),
    ensures
        ready(rules, placed, i) == may_run_next(rules, order, i),
{
    if ready(rules, placed, i) {
        assert forall|j: int| #[trigger] must_precede(rules, j, i) implies order.contains(
            j as usize,
        ) by {
            assert(placed[j]);
        }
    }
    if may_run_next(rules, order, i) {
        assert forall|j: int| #[trigger] must_precede(rules, j, i) implies placed[j] by {
            assert(order.contains(j as usize));
        }
    }
}

/// The resolved order of `rules`, as indices into them.
pub open spec fn resolved(rules: Seq<RuleModel>) -> Seq<usize> {
    choose|order: Seq<usize>| is_resolved_order(rules, order)
}

/// The names of `rules` in their resolved order.
pub open spec fn rule_marks(rules: Seq<RuleModel>) -> Seq<RuleId> {
    resolved(rules).map_values(|i: usize| rules[i as int].mark)
}

impl Ruler {
    /// The names of the rules in the order in which they run; `None` where
    /// the constraints cannot all be met.
    pub fn ordered_marks(&self) -> (r: Option<Vec<RuleId>>)
        ensures
            match r {
                Some(marks) => acyclic(self@) && marks@ == rule_marks(self@),
                None => !acyclic(self@),
            },
    {
        match self.compile() {
            Ok(order) => {
                proof {
                    lemma_resolved_order_unique(self@, order@, resolved(self@));
                    lemma_resolved_order_distinct(self@, order@);
                }
                let mut marks: Vec<RuleId> = Vec::new();
                let mut k: usize = 0;
                while k < order.len()
                    invariant
                        k <= order@.len(),
                        forall|j: int| 0 <= j < order@.len() ==> (#[trigger] order@[j]) < self.rules@.len(),
                        marks@.len() == k,
                        forall|j: int| 0 <= j < k ==> marks@[j] == self@[order@[j] as int].mark,
                    decreases order.len() - k,
                {
                    marks.push(self.rules[order[k]].mark);
                    k = k + 1;
                }
                assert(marks@ =~= rule_marks(self@));
                Some(marks)
            },
            Err(_) => None,
        }
    }
}

} // verus!
