//! The interpreter's variable scopes and the plan it reports.
//!
//! Variables live in a stack of scopes: the innermost is the most recent.
//! The values are of any type `V`; the interpreter's own values are one.
use vstd::prelude::*;
use crate::prompts::str_eq;

verus! {

/// Status of a plan entry.
#[derive(Debug, Clone, Copy, PartialEq, Eq, Structural)]
pub enum PlanEntryStatus {
    Pending,
    InProgress,
    Completed,
}

/// A single entry in the execution plan.
#[derive(Debug, Clone)]
pub struct PlanEntry {
    /// What the task is, in words.
    pub content: String,
    /// Current execution status.
    pub status: PlanEntryStatus,
}

/// A plan update sent from the interpreter: the whole plan, which replaces
/// the one the client had.
#[derive(Debug, Clone)]
pub struct PlanUpdate {
    pub entries: Vec<PlanEntry>,
}

/// The status of the `i`-th item of a loop with `done` items completed and,
/// where `active`, the next one under way.
pub open spec fn plan_status(i: int, done: int, active: bool) -> PlanEntryStatus {
    if i < done {
        PlanEntryStatus::Completed
    } else if i == done && active {
        PlanEntryStatus::InProgress
    } else {
        PlanEntryStatus::Pending
    }
}

/// The plan of a loop over items (described by `items`) with `done` of them
/// completed and, where `active`, the next one under way: before the loop
/// nothing is done, while it runs the current item is in progress, after it
/// all are completed.
pub fn plan_update(items: &Vec<String>, done: usize, active: bool) -> (r: PlanUpdate)
    ensures
        r.entries@.len() == items@.len(),
        forall|i: int|
            0 <= i < items@.len() ==> (#[trigger] r.entries@[i]).content@ == items@[i]@
                && r.entries@[i].status == plan_status(i, done as int, active),
{
    let mut entries: Vec<PlanEntry> = Vec::new();
    let mut i: usize = 0;
    while i < items.len()
        invariant
            i <= items@.len(),
            entries@.len() == i,
            forall|k: int|
                0 <= k < i ==> (#[trigger] entries@[k]).content@ == items@[k]@ && entries@[k].status
                    == plan_status(k, done as int, active),
        decreases items@.len() - i,
    {
        let status = if i < done {
            PlanEntryStatus::Completed
        } else if i == done && active {
            PlanEntryStatus::InProgress
        } else {
            PlanEntryStatus::Pending
        };
        entries.push(PlanEntry { content: items[i].clone(), status });
        i = i + 1;
    }
    PlanUpdate { entries }
}

/// The variables of one scope, by name.
pub open spec fn scope_map<V>(sc: Seq<(String, V)>) -> Map<Seq<char>, V>
    decreases sc.len(),
{
    if sc.len() == 0 {
        Map::empty()
    } else {
        scope_map(sc.drop_last()).insert(sc.last().0@, sc.last().1)
    }
}

/// No name occurs twice in a scope.
pub open spec fn unique_names<V>(sc: Seq<(String, V)>) -> bool {
    forall|i: int, j: int| 0 <= i < j < sc.len() ==> #[trigger] sc[i].0@ != #[trigger] sc[j].0@
}

/// The value of `n` in the innermost scope that defines it.
pub open spec fn lookup<V>(ss: Seq<Map<Seq<char>, V>>, n: Seq<char>) -> Option<V>
    decreases ss.len(),
{
    if ss.len() == 0 {
        None
    } else if ss.last().contains_key(n) {
        Some(ss.last()[n])
    } else {
        lookup(ss.drop_last(), n)
    }
}

/// The index of the innermost scope that defines `n`.
pub open spec fn innermost<V>(ss: Seq<Map<Seq<char>, V>>, n: Seq<char>) -> Option<int>
    decreases ss.len(),
{
    if ss.len() == 0 {
        None
    } else if ss.last().contains_key(n) {
        Some(ss.len() - 1)
    } else {
        innermost(ss.drop_last(), n)
    }
}

/// Scopes after entering a block.
pub open spec fn pushed<V>(ss: Seq<Map<Seq<char>, V>>) -> Seq<Map<Seq<char>, V>> {
    ss.push(Map::empty())
}

/// Scopes after leaving a block: the outermost scope is never left.
pub open spec fn popped<V>(ss: Seq<Map<Seq<char>, V>>) -> Seq<Map<Seq<char>, V>> {
    if ss.len() > 1 {
        ss.drop_last()
    } else {
        ss
    }
}

/// Scopes after `n` is defined as `v` in the innermost scope.
pub open spec fn defined<V>(ss: Seq<Map<Seq<char>, V>>, n: Seq<char>, v: V) -> Seq<Map<Seq<char>, V>> {
    ss.update(ss.len() - 1, ss.last().insert(n, v))
}

/// Scopes after `n` is set to `v` where the innermost scope that defines
/// it is `k`.
pub open spec fn assigned<V>(ss: Seq<Map<Seq<char>, V>>, k: int, n: Seq<char>, v: V) -> Seq<Map<Seq<char>, V>> {
    ss.update(k, ss[k].insert(n, v))
}

/// The message for a variable defined twice in one scope.
pub open spec fn already_defined_text(n: Seq<char>) -> Seq<char> {
    "Variable '"@ + n + "' already defined in this scope"@
}

/// The message for setting a variable that no scope defines.
pub open spec fn not_defined_text(n: Seq<char>) -> Seq<char> {
    "Variable '"@ + n + "' not defined"@
}

/// The variable scopes of the interpreter and its working directory.
pub struct Runtime<V> {
    scopes: Vec<Vec<(String, V)>>,
    working_dir: String,
}

impl<V> Runtime<V> {
    /// The scopes, outermost first.
    pub closed spec fn scopes(&self) -> Seq<Map<Seq<char>, V>> {
        self.scopes@.map_values(|sc: Vec<(String, V)>| scope_map(sc@))
    }

    /// The working directory.
    pub closed spec fn dir(&self) -> Seq<char> {
        self.working_dir@
    }

    /// There is always a scope, and no scope holds a name twice.
    pub closed spec fn wf(&self) -> bool {
        &&& self.scopes@.len() >= 1
        &&& forall|i: int| 0 <= i < self.scopes@.len() ==> unique_names(#[trigger] self.scopes@[i]@)
    }

    /// A runtime with one empty scope.
    pub fn new(working_dir: String) -> (r: Self)
        ensures
            r.wf(),
            r.scopes() == seq![Map::<Seq<char>, V>::empty()],
            r.dir() == working_dir@,
    {
        let mut scopes: Vec<Vec<(String, V)>> = Vec::new();
        scopes.push(Vec::new());
        let r = Runtime { scopes, working_dir };
        proof {
            assert(r.scopes() =~= seq![Map::<Seq<char>, V>::empty()]);
        }
        r
    }

    /// The working directory.
    pub fn working_dir(&self) -> (r: &String)
        ensures
            r@ == self.dir(),
    {
        &self.working_dir
    }

    /// Sets the working directory.
    pub fn set_working_dir(&mut self, dir: String)
        requires
            old(self).wf(),
        ensures
            final(self).wf(),
            final(self).dir() == dir@,
            final(self).scopes() == old(self).scopes(),
    {
        self.working_dir = dir;
    }

    /// Enters a block: a new innermost scope.
    pub fn push_scope(&mut self)
        requires
            old(self).wf(),
        ensures
            final(self).wf(),
            final(self).scopes() == pushed(old(self).scopes()),
            final(self).dir() == old(self).dir(),
    {
        let ghost before = self.scopes@;
        self.scopes.push(Vec::new());
        proof {
            assert(self.scopes@.drop_last() == before);
            assert(self.scopes() =~= pushed(old(self).scopes()));
        }
    }

    /// Leaves a block: drops the innermost scope, unless it is the only one.
    pub fn pop_scope(&mut self)
        requires
            old(self).wf(),
        ensures
            final(self).wf(),
            final(self).scopes() == popped(old(self).scopes()),
            final(self).dir() == old(self).dir(),
    {
        if self.scopes.len() > 1 {
            self.scopes.pop();
            proof {
                assert(self.scopes() =~= popped(old(self).scopes()));
            }
        }
    }

    /// The position of `name` in a scope.
    fn find_in(sc: &Vec<(String, V)>, name: &str) -> (r: Option<usize>)
        ensures
            r matches Some(j) ==> j < sc@.len() && sc@[j as int].0@ == name@,
            r is None ==> forall|j: int| 0 <= j < sc@.len() ==> #[trigger] sc@[j].0@ != name@,
    {
        let mut j: usize = 0;
        while j < sc.len()
            invariant
                j <= sc@.len(),
                forall|k: int| 0 <= k < j ==> #[trigger] sc@[k].0@ != name@,
            decreases sc@.len() - j,
        {
            if str_eq(sc[j].0.as_str(), name) {
                return Some(j);
            }
            j = j + 1;
        }
        None
    }

    /// Defines a variable in the innermost scope; fails where that scope
    /// already defines it.
    pub fn define_var(&mut self, name: &str, value: V) -> (r: Result<(), String>)
        requires
            old(self).wf(),
        ensures
            final(self).wf(),
            final(self).dir() == old(self).dir(),
            old(self).scopes().last().contains_key(name@) <==> r is Err,
            r matches Err(m) ==> m@ == already_defined_text(name@) && final(self).scopes() == old(self).scopes(),
            r is Ok ==> final(self).scopes() == defined(old(self).scopes(), name@, value),
    {
        let n = self.scopes.len();
        let ghost ss = self.scopes@;
        proof {
            assert(unique_names(ss[n - 1]@));
            lemma_scope_map_keys(ss[n - 1]@, name@);
            assert(old(self).scopes().last() == scope_map(ss[n - 1]@));
        }
        match Self::find_in(&self.scopes[n - 1], name) {
            Some(_) => {
                let mut m = String::new();
                m.append("Variable '");
                m.append(name);
                m.append("' already defined in this scope");
                Err(m)
            },
            None => {
                let mut last = self.scopes.pop().unwrap();
                let ghost before = last@;
                last.push((name.to_owned(), value));
                proof {
                    assert(last@.drop_last() == before);
                    assert forall|i: int, j: int| 0 <= i < j < last@.len() implies #[trigger] last@[i].0@
                        != #[trigger] last@[j].0@ by {
                        if j == last@.len() - 1 {
                            assert(before[i].0@ != name@);
                        } else {
                            assert(before[i] == last@[i] && before[j] == last@[j]);
                        }
                    }
                }
                self.scopes.push(last);
                proof {
                    assert(self.scopes@ == ss.update(n - 1, last));
                    assert(self.scopes() =~= defined(old(self).scopes(), name@, value));
                }
                Ok(())
            },
        }
    }

    /// The value of a variable, from the innermost scope that defines it.
    pub fn get_var(&self, name: &str) -> (r: Option<&V>)
        requires
            self.wf(),
        ensures
            r matches Some(v) ==> lookup(self.scopes(), name@) == Some(*v),
            r is None ==> lookup(self.scopes(), name@) is None,
    {
        let mut k = self.scopes.len();
        proof {
            assert(self.scopes().take(k as int) =~= self.scopes());
        }
        while k > 0
            invariant
                self.wf(),
                k <= self.scopes@.len(),
                lookup(self.scopes(), name@) == lookup(self.scopes().take(k as int), name@),
            decreases k,
        {
            let ghost pre = self.scopes().take(k as int);
            proof {
                assert(unique_names(self.scopes@[k - 1]@));
                lemma_scope_map_keys(self.scopes@[k - 1]@, name@);
                assert(pre.last() == scope_map(self.scopes@[k - 1]@));
                assert(pre.drop_last() =~= self.scopes().take(k - 1));
            }
            match Self::find_in(&self.scopes[k - 1], name) {
                Some(j) => {
                    proof {
                        lemma_scope_map_value(self.scopes@[k - 1]@, j as int);
                    }
                    return Some(&self.scopes[k - 1][j].1);
                },
                None => {},
            }
            k = k - 1;
        }
        proof {
            assert(self.scopes().take(0) =~= Seq::<Map<Seq<char>, V>>::empty());
        }
        None
    }

    /// Sets an existing variable in the innermost scope that defines it;
    /// fails where no scope defines it.
    pub fn set_var(&mut self, name: &str, value: V) -> (r: Result<(), String>)
        requires
            old(self).wf(),
        ensures
            final(self).wf(),
            final(self).dir() == old(self).dir(),
            innermost(old(self).scopes(), name@) is None <==> r is Err,
            r matches Err(m) ==> m@ == not_defined_text(name@) && final(self).scopes() == old(self).scopes(),
            r is Ok ==> final(self).scopes() == assigned(
                old(self).scopes(),
                innermost(old(self).scopes(), name@)->0,
                name@,
                value,
            ),
    {
        let mut k = self.scopes.len();
        proof {
            assert(self.scopes().take(k as int) =~= self.scopes());
        }
        while k > 0
            invariant
                self.wf(),
                self.scopes@ == old(self).scopes@,
                self.working_dir == old(self).working_dir,
                k <= self.scopes@.len(),
                innermost(self.scopes(), name@) == innermost(self.scopes().take(k as int), name@),
            decreases k,
        {
            let ghost pre = self.scopes().take(k as int);
            let ghost ss = self.scopes@;
            proof {
                assert(unique_names(ss[k - 1]@));
                lemma_scope_map_keys(ss[k - 1]@, name@);
                assert(pre.last() == scope_map(ss[k - 1]@));
                assert(pre.drop_last() =~= self.scopes().take(k - 1));
            }
            match Self::find_in(&self.scopes[k - 1], name) {
                Some(j) => {
                    let mut sc = self.scopes.remove(k - 1);
                    let ghost before = sc@;
                    sc.set(j, (name.to_owned(), value));
                    proof {
                        lemma_scope_map_update(before, j as int, name@, value);
                        assert forall|a: int, b: int| 0 <= a < b < sc@.len() implies #[trigger] sc@[a].0@
                            != #[trigger] sc@[b].0@ by {
                            assert(before[a].0@ != before[b].0@);
                        }
                    }
                    self.scopes.insert(k - 1, sc);
                    proof {
                        assert(self.scopes@ =~= ss.update(k - 1, sc));
                        assert(innermost(old(self).scopes(), name@) == Some(k - 1));
                        assert(self.scopes() =~= assigned(old(self).scopes(), k - 1, name@, value));
                    }
                    return Ok(());
                },
                None => {},
            }
            k = k - 1;
        }
        proof {
            assert(self.scopes().take(0) =~= Seq::<Map<Seq<char>, V>>::empty());
        }
        let mut m = String::new();
        m.append("Variable '");
        m.append(name);
        m.append("' not defined");
        Err(m)
    }
}

impl<V> Default for Runtime<V> {
    /// A runtime with one empty scope, working in the current directory.
    fn default() -> (r: Self)
        ensures
            r.wf(),
            r.scopes() == seq![Map::<Seq<char>, V>::empty()],
            r.dir() == "."@,
    {
        Runtime::new(".".to_owned())
    }
}

/// A name is a key of a scope's map iff an entry of the scope has it.
pub proof fn lemma_scope_map_keys<V>(sc: Seq<(String, V)>, n: Seq<char>)
    ensures
        scope_map(sc).contains_key(n) <==> exists|j: int| 0 <= j < sc.len() && #[trigger] sc[j].0@ == n,
    decreases sc.len(),
{
    if sc.len() > 0 {
        lemma_scope_map_keys(sc.drop_last(), n);
        if scope_map(sc.drop_last()).contains_key(n) {
            let j = choose|j: int| 0 <= j < sc.drop_last().len() && #[trigger] sc.drop_last()[j].0@ == n;
            assert(sc[j].0@ == n);
        }
        if exists|j: int| 0 <= j < sc.len() && #[trigger] sc[j].0@ == n {
            let j = choose|j: int| 0 <= j < sc.len() && #[trigger] sc[j].0@ == n;
            if j < sc.len() - 1 {
                assert(sc.drop_last()[j].0@ == n);
            }
        }
    }
}

/// In a scope without repeated names, the map gives each entry's value.
pub proof fn lemma_scope_map_value<V>(sc: Seq<(String, V)>, j: int)
    requires
        unique_names(sc),
        0 <= j < sc.len(),
    ensures
        scope_map(sc).contains_key(sc[j].0@),
        scope_map(sc)[sc[j].0@] == sc[j].1,
    decreases sc.len(),
{
    if j < sc.len() - 1 {
        assert(unique_names(sc.drop_last()));
        assert(sc.drop_last()[j] == sc[j]);
        lemma_scope_map_value(sc.drop_last(), j);
        assert(sc[j].0@ != sc.last().0@);
    }
}

/// Replacing the entry of `n` in a scope without repeated names sets `n`.
pub proof fn lemma_scope_map_update<V>(sc: Seq<(String, V)>, j: int, n: Seq<char>, v: V)
    requires
        unique_names(sc),
        0 <= j < sc.len(),
        sc[j].0@ == n,
    ensures
        forall|s: String| s@ == n ==> scope_map(sc.update(j, (s, v))) == scope_map(sc).insert(n, v),
    decreases sc.len(),
{
    assert forall|s: String| s@ == n implies scope_map(sc.update(j, (s, v))) == scope_map(sc).insert(n, v) by {
        let u = sc.update(j, (s, v));
        if j == sc.len() - 1 {
            assert(u.drop_last() =~= sc.drop_last());
            assert(scope_map(u) =~= scope_map(sc).insert(n, v));
        } else {
            assert(unique_names(sc.drop_last()));
            assert(sc.drop_last()[j] == sc[j]);
            lemma_scope_map_update(sc.drop_last(), j, n, v);
            assert(u.drop_last() =~= sc.drop_last().update(j, (s, v)));
            assert(sc.last().0@ != n);
            assert(scope_map(u) =~= scope_map(sc).insert(n, v));
        }
    }
}

/// A variable read right after it is defined gives the defined value.
pub proof fn law_read_after_define<V>(ss: Seq<Map<Seq<char>, V>>, n: Seq<char>, v: V)
    requires
        ss.len() >= 1,
    ensures
        lookup(defined(ss, n, v), n) == Some(v),
{
}

/// A variable read right after it is set gives the value set.
pub proof fn law_read_after_set<V>(ss: Seq<Map<Seq<char>, V>>, n: Seq<char>, v: V)
    requires
        innermost(ss, n) is Some,
    ensures
        lookup(assigned(ss, innermost(ss, n)->0, n, v), n) == Some(v),
    decreases ss.len(),
{
    lemma_innermost_range(ss, n);
    let k = innermost(ss, n)->0;
    let a = assigned(ss, k, n, v);
    if k == ss.len() - 1 {
    } else {
        assert(!ss.last().contains_key(n));
        law_read_after_set(ss.drop_last(), n, v);
        assert(a.drop_last() =~= assigned(ss.drop_last(), k, n, v));
        assert(a.last() == ss.last());
    }
}

/// The innermost scope that defines a name is a scope.
pub proof fn lemma_innermost_range<V>(ss: Seq<Map<Seq<char>, V>>, n: Seq<char>)
    ensures
        innermost(ss, n) matches Some(k) ==> 0 <= k < ss.len() && ss[k].contains_key(n),
        innermost(ss, n) is Some <==> lookup(ss, n) is Some,
    decreases ss.len(),
{
    if ss.len() > 0 && !ss.last().contains_key(n) {
        lemma_innermost_range(ss.drop_last(), n);
    }
}

/// Leaving a block undoes entering it.
pub proof fn law_pop_undoes_push<V>(ss: Seq<Map<Seq<char>, V>>)
    requires
        ss.len() >= 1,
    ensures
        popped(pushed(ss)) == ss,
{
    assert(pushed(ss).drop_last() =~= ss);
}

/// An inner scope sees the variables of the outer ones.
pub proof fn law_inner_sees_outer<V>(ss: Seq<Map<Seq<char>, V>>, n: Seq<char>)
    ensures
        lookup(pushed(ss), n) == lookup(ss, n),
{
    assert(pushed(ss).drop_last() =~= ss);
}

/// A variable defined in a block is gone when the block is left: what was
/// visible before the block is visible again.
pub proof fn law_block_scoping<V>(ss: Seq<Map<Seq<char>, V>>, n: Seq<char>, v: V, m: Seq<char>)
    requires
        ss.len() >= 1,
    ensures
        lookup(popped(defined(pushed(ss), n, v)), m) == lookup(ss, m),
{
    assert(defined(pushed(ss), n, v).drop_last() =~= ss);
}

} // verus!
