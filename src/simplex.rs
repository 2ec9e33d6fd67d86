//! The simplex and the machine that drives it through one Nelder–Mead
//! iteration at a time. The caller evaluates the objective and computes the
//! candidate positions; each method takes the evaluated vertex back and
//! decides what happens to the simplex next.
use vstd::prelude::*;
use crate::score::Score;

verus! {

broadcast use vstd::seq_lib::group_to_multiset_ensures;

/// A candidate point and the objective's score there.
pub struct Vertex<P> {
    pub position: P,
    pub score: Score,
}

/// What the machine asks of its caller next.
#[derive(Clone, Copy, Debug, PartialEq, Eq, Structural)]
pub enum Action {
    /// Evaluate the starting point.
    Seed,
    /// Evaluate the starting point with the given axis increased by the step.
    Perturb(usize),
    /// Compute the threshold from the previous best score and begin an iteration.
    Iterate,
    /// Evaluate the reflection of the worst vertex through the centroid.
    Reflect,
    /// Evaluate the expansion of the worst vertex through the centroid.
    Expand,
    /// Evaluate the contraction of the worst vertex towards the centroid.
    Contract,
    /// Evaluate every vertex moved towards the best one.
    Shrink,
    /// Stop: the best vertex is the result.
    Finish,
}

#[derive(Clone, Copy, Debug, PartialEq, Eq, Structural)]
pub enum OptimizeError {
    /// The starting point has no coordinates.
    EmptyStart,
    /// The vertex at this index has a score that cannot be ordered (NaN).
    IncomparableScore { index: usize },
}

/// Index at which a vertex of the given key goes into a sequence, after every
/// vertex whose key is not larger, scanning from the end.
pub open spec fn insert_pos<P>(s: Seq<Vertex<P>>, k: int) -> nat
    decreases s.len(),
{
    if s.len() == 0 {
        0
    } else if s.last().score.key() > k {
        insert_pos(s.drop_last(), k)
    } else {
        s.len()
    }
}

pub open spec fn insert_sorted<P>(s: Seq<Vertex<P>>, v: Vertex<P>) -> Seq<Vertex<P>> {
    s.insert(insert_pos(s, v.score.key()) as int, v)
}

/// Stable sort of the vertices by score, ascending.
pub open spec fn sort_by_score<P>(s: Seq<Vertex<P>>) -> Seq<Vertex<P>>
    decreases s.len(),
{
    if s.len() == 0 {
        s
    } else {
        insert_sorted(sort_by_score(s.drop_last()), s.last())
    }
}

pub open spec fn sorted_by_score<P>(s: Seq<Vertex<P>>) -> bool {
    forall|i: int, j: int| 0 <= i <= j < s.len() ==> s[i].score.key() <= s[j].score.key()
}

pub open spec fn all_comparable<P>(s: Seq<Vertex<P>>) -> bool {
    forall|i: int| 0 <= i < s.len() ==> !(#[trigger] s[i].score.is_nan_spec())
}

/// `i` is the first index whose score is NaN.
pub open spec fn is_first_nan<P>(s: Seq<Vertex<P>>, i: int) -> bool {
    &&& 0 <= i < s.len()
    &&& s[i].score.is_nan_spec()
    &&& forall|j: int| 0 <= j < i ==> !(#[trigger] s[j].score.is_nan_spec())
}

proof fn lemma_insert_pos<P>(s: Seq<Vertex<P>>, k: int)
    ensures
        insert_pos(s, k) <= s.len(),
        forall|i: int| insert_pos(s, k) <= i < s.len() ==> s[i].score.key() > k,
        insert_pos(s, k) > 0 ==> s[insert_pos(s, k) - 1].score.key() <= k,
    decreases s.len(),
{
    if s.len() > 0 && s.last().score.key() > k {
        let d = s.drop_last();
        lemma_insert_pos(d, k);
        assert forall|i: int| insert_pos(s, k) <= i < s.len() implies s[i].score.key() > k by {
            if i < d.len() {
                assert(s[i] == d[i]);
            }
        }
        if insert_pos(s, k) > 0 {
            assert(s[insert_pos(s, k) - 1] == d[insert_pos(d, k) - 1]);
        }
    }
}

proof fn lemma_insert_sorted<P>(s: Seq<Vertex<P>>, v: Vertex<P>)
    requires
        sorted_by_score(s),
    ensures
        sorted_by_score(insert_sorted(s, v)),
        insert_sorted(s, v).to_multiset() =~= s.to_multiset().insert(v),
        insert_sorted(s, v).len() == s.len() + 1,
{
    let k = v.score.key();
    let p = insert_pos(s, k) as int;
    lemma_insert_pos(s, k);
    let t = insert_sorted(s, v);
    assert forall|i: int, j: int| 0 <= i <= j < t.len() implies t[i].score.key()
        <= t[j].score.key() by {
        if i < p && j > p {
            assert(s[i].score.key() <= s[p - 1].score.key());
        } else if i < p && j == p {
            assert(s[i].score.key() <= s[p - 1].score.key());
        }
    }
    assert(t.remove(p) =~= s);
    assert(t[p] == v);
    assert(t.contains(v));
    broadcast use vstd::multiset::group_multiset_axioms;
}

/// The stable sort is sorted and a permutation of its input.
pub proof fn lemma_sort_by_score<P>(s: Seq<Vertex<P>>)
    ensures
        sorted_by_score(sort_by_score(s)),
        sort_by_score(s).to_multiset() =~= s.to_multiset(),
        sort_by_score(s).len() == s.len(),
    decreases s.len(),
{
    if s.len() > 0 {
        lemma_sort_by_score(s.drop_last());
        lemma_insert_sorted(sort_by_score(s.drop_last()), s.last());
        assert(s =~= s.drop_last().push(s.last()));
    }
}

fn find_nan<P>(v: &Vec<Vertex<P>>) -> (r: Option<usize>)
    ensures
        match r {
            Some(i) => is_first_nan(v@, i as int),
            None => all_comparable(v@),
        },
{
    let mut i: usize = 0;
    while i < v.len()
        invariant
            i <= v.len(),
            forall|j: int| 0 <= j < i ==> !(#[trigger] v@[j].score.is_nan_spec()),
        decreases v.len() - i,
    {
        if v[i].score.is_nan() {
            return Some(i);
        }
        i += 1;
    }
    None
}

fn position_for<P>(s: &Vec<Vertex<P>>, k: &Score) -> (r: usize)
    ensures
        r == insert_pos(s@, k.key()),
{
    let kk: i64 = k.key_exec();
    let mut j: usize = s.len();
    assert(s@.take(s@.len() as int) =~= s@);
    while j > 0 && s[j - 1].score.key_exec() > kk
        invariant
            j <= s.len(),
            kk == k.key(),
            insert_pos(s@, k.key()) == insert_pos(s@.take(j as int), k.key()),
        decreases j,
    {
        assert(s@.take(j as int).drop_last() =~= s@.take(j - 1));
        j -= 1;
    }
    j
}

fn sort_vertices<P>(v: Vec<Vertex<P>>) -> (r: Vec<Vertex<P>>)
    ensures
        r@ == sort_by_score(v@),
{
    let ghost orig = v@;
    let mut rest = v;
    let mut out: Vec<Vertex<P>> = Vec::new();
    assert(orig.take(0) =~= Seq::<Vertex<P>>::empty());
    assert(orig.skip(0) =~= orig);
    while rest.len() > 0
        invariant
            rest.len() <= orig.len(),
            out@ == sort_by_score(orig.take(orig.len() - rest.len())),
            rest@ == orig.skip(orig.len() - rest.len()),
        decreases rest.len(),
    {
        let ghost t = orig.len() - rest.len();
        let x = rest.remove(0);
        assert(orig.take(t + 1).drop_last() =~= orig.take(t));
        assert(rest@ =~= orig.skip(t + 1));
        let p = position_for(&out, &x.score);
        proof {
            lemma_insert_pos(out@, x.score.key());
        }
        out.insert(p, x);
    }
    assert(orig.take(orig.len() as int) =~= orig);
    out
}

/// The abstract state of a run.
pub struct Model<P> {
    pub dim: usize,
    pub vertices: Seq<Vertex<P>>,
    /// The reflected vertex, held while its expansion is evaluated.
    pub pending: Option<Vertex<P>>,
    pub prev_best: Score,
    /// The best score recorded at the last sort.
    pub best: Option<Score>,
    pub no_improv: u64,
    pub iters: u64,
    pub no_improv_break: u64,
    pub max_iter: u64,
    pub next: Action,
}

impl<P> Model<P> {
    /// Well-formedness: the simplex has one vertex per evaluated starting point
    /// while it is built and exactly `dim + 1` afterwards; within an iteration
    /// it stays sorted, comparable, and led by the recorded best.
    pub open spec fn wf(self) -> bool {
        &&& 1 <= self.dim < usize::MAX
        &&& self.no_improv <= self.iters <= self.max_iter
        &&& match self.next {
            Action::Seed => self.vertices.len() == 0,
            Action::Perturb(i) => i < self.dim && self.vertices.len() == i + 1,
            _ => self.vertices.len() == self.dim + 1,
        }
        &&& (self.next == Action::Expand) == self.pending.is_some()
        &&& match self.next {
            Action::Reflect | Action::Expand | Action::Contract | Action::Shrink | Action::Finish => {
                &&& sorted_by_score(self.vertices)
                &&& all_comparable(self.vertices)
                &&& self.best == Some(self.vertices[0].score)
            },
            _ => true,
        }
    }

    /// Some vertex scores no worse than the recorded best.
    pub open spec fn holds_best(self) -> bool {
        match self.best {
            Some(b) => exists|i: int|
                0 <= i < self.vertices.len() && (#[trigger] self.vertices[i]).score.le_spec(b),
            None => true,
        }
    }

    /// The state after a vertex of the starting simplex is added.
    pub open spec fn added(self, v: Vertex<P>) -> Model<P> {
        Model {
            vertices: self.vertices.push(v),
            prev_best: if self.next == Action::Seed { v.score } else { self.prev_best },
            next: match self.next {
                Action::Seed => Action::Perturb(0),
                Action::Perturb(i) => if i + 1 < self.dim { Action::Perturb((i + 1) as usize) } else { Action::Iterate },
                _ => self.next,
            },
            ..self
        }
    }

    /// The state after an iteration begins on a comparable simplex: sort,
    /// stop at the iteration limit, count a step without improvement against
    /// `limit`, and stop when those reach the break count.
    pub open spec fn begun(self, limit: Score) -> Model<P> {
        let vs = sort_by_score(self.vertices);
        let b = vs[0].score;
        if self.iters >= self.max_iter {
            Model { vertices: vs, best: Some(b), next: Action::Finish, ..self }
        } else {
            let improved = b.lt_spec(limit);
            let no_improv: u64 = if improved { 0 } else { (self.no_improv + 1) as u64 };
            Model {
                vertices: vs,
                best: Some(b),
                iters: (self.iters + 1) as u64,
                no_improv,
                prev_best: if improved { b } else { self.prev_best },
                next: if no_improv >= self.no_improv_break { Action::Finish } else { Action::Reflect },
                ..self
            }
        }
    }

    /// The state after the reflected vertex `r` is evaluated.
    pub open spec fn reflected(self, r: Vertex<P>) -> Model<P> {
        let n = self.dim as int;
        let b = self.vertices[0].score;
        if b.le_spec(r.score) && r.score.lt_spec(self.vertices[n - 1].score) {
            Model { vertices: self.vertices.update(n, r), next: Action::Iterate, ..self }
        } else if r.score.lt_spec(b) {
            Model { pending: Some(r), next: Action::Expand, ..self }
        } else {
            Model { next: Action::Contract, ..self }
        }
    }

    /// The state after the expanded vertex `e` is evaluated: the better of it
    /// and the reflected vertex replaces the worst.
    pub open spec fn expanded(self, e: Vertex<P>) -> Model<P> {
        let r = self.pending.unwrap();
        let w = if e.score.lt_spec(r.score) { e } else { r };
        Model {
            vertices: self.vertices.update(self.dim as int, w),
            pending: None,
            next: Action::Iterate,
            ..self
        }
    }

    /// The state after the contracted vertex `c` is evaluated.
    pub open spec fn contracted(self, c: Vertex<P>) -> Model<P> {
        let n = self.dim as int;
        if c.score.lt_spec(self.vertices[n].score) {
            Model { vertices: self.vertices.update(n, c), next: Action::Iterate, ..self }
        } else {
            Model { next: Action::Shrink, ..self }
        }
    }

    /// The state after the shrunk simplex `vs` is evaluated.
    pub open spec fn shrunk(self, vs: Seq<Vertex<P>>) -> Model<P> {
        Model { vertices: vs, next: Action::Iterate, ..self }
    }
}


/// With an iteration limit of zero, the first iteration stops at once, with
/// no operator applied, and the vertex it leads with is one of the starting
/// vertices and scores no worse than any of them.
pub proof fn lemma_zero_iterations_return_initial_best<P>(m: Model<P>, limit: Score)
    requires
        m.wf(),
        m.next == Action::Iterate,
        m.max_iter == 0,
        all_comparable(m.vertices),
    ensures
        m.begun(limit).next == Action::Finish,
        m.vertices.contains(m.begun(limit).vertices[0]),
        forall|i: int| 0 <= i < m.vertices.len()
            ==> m.begun(limit).vertices[0].score.key() <= #[trigger] m.vertices[i].score.key(),
{
    let vs = m.begun(limit).vertices;
    lemma_sort_by_score(m.vertices);
    assert(m.vertices.to_multiset().count(vs[0]) > 0);
    assert forall|i: int| 0 <= i < m.vertices.len()
        implies vs[0].score.key() <= #[trigger] m.vertices[i].score.key() by {
        assert(vs.to_multiset().count(m.vertices[i]) > 0);
        assert(vs.contains(m.vertices[i]));
    }
}

/// The best score recorded when an iteration begins is no worse than the one
/// recorded when the previous iteration began, as long as some vertex still
/// scores no worse than it (which every operator but the shrink keeps, and the
/// shrink keeps when the image of the best vertex scores no worse).
pub proof fn lemma_best_never_rises<P>(m: Model<P>, limit: Score)
    requires
        m.wf(),
        m.next == Action::Iterate,
        all_comparable(m.vertices),
        m.holds_best(),
        m.best is Some,
    ensures
        m.begun(limit).best.unwrap().key() <= m.best.unwrap().key(),
{
    let vs = sort_by_score(m.vertices);
    lemma_sort_by_score(m.vertices);
    let w = choose|i: int|
        0 <= i < m.vertices.len() && (#[trigger] m.vertices[i]).score.le_spec(m.best.unwrap());
    assert(vs.to_multiset().count(m.vertices[w]) > 0);
    assert(vs.contains(m.vertices[w]));
}

/// A run of the Nelder–Mead method over positions of type `P`.
pub struct NelderMead<P> {
    dim: usize,
    vertices: Vec<Vertex<P>>,
    pending: Option<Vertex<P>>,
    prev_best: Score,
    best: Option<Score>,
    no_improv: u64,
    iters: u64,
    no_improv_break: u64,
    max_iter: u64,
    next: Action,
}

impl<P> View for NelderMead<P> {
    type V = Model<P>;

    closed spec fn view(&self) -> Model<P> {
        Model {
            dim: self.dim,
            vertices: self.vertices@,
            pending: self.pending,
            prev_best: self.prev_best,
            best: self.best,
            no_improv: self.no_improv,
            iters: self.iters,
            no_improv_break: self.no_improv_break,
            max_iter: self.max_iter,
            next: self.next,
        }
    }
}

impl<P> NelderMead<P> {
    /// Starts a run over `dim` coordinates; a start without coordinates is refused
    /// before anything is evaluated.
    pub fn new(dim: usize, no_improv_break: u64, max_iter: u64) -> (r: Result<Self, OptimizeError>)
        requires
            dim < usize::MAX,
        ensures
            dim == 0 ==> r == Err::<Self, OptimizeError>(OptimizeError::EmptyStart),
            dim > 0 ==> r is Ok,
            r matches Ok(m) ==> {
                &&& m@.wf()
                &&& m@.dim == dim
                &&& m@.vertices.len() == 0
                &&& m@.pending.is_none()
                &&& m@.best.is_none()
                &&& m@.no_improv == 0
                &&& m@.iters == 0
                &&& m@.no_improv_break == no_improv_break
                &&& m@.max_iter == max_iter
                &&& m@.next == Action::Seed
            },
    {
        if dim == 0 {
            return Err(OptimizeError::EmptyStart);
        }
        Ok(NelderMead {
            dim,
            vertices: Vec::new(),
            pending: None,
            prev_best: Score { bits: 0 },
            best: None,
            no_improv: 0,
            iters: 0,
            no_improv_break,
            max_iter,
            next: Action::Seed,
        })
    }

    pub fn dim(&self) -> (r: usize)
        ensures
            r == self@.dim,
    {
        self.dim
    }

    pub fn next_action(&self) -> (r: Action)
        ensures
            r == self@.next,
    {
        self.next
    }

    pub fn vertices(&self) -> (r: &Vec<Vertex<P>>)
        ensures
            r@ == self@.vertices,
    {
        &self.vertices
    }

    pub fn prev_best(&self) -> (r: Score)
        ensures
            r == self@.prev_best,
    {
        self.prev_best
    }

    pub fn best(&self) -> (r: Option<Score>)
        ensures
            r == self@.best,
    {
        self.best
    }

    pub fn iterations(&self) -> (r: u64)
        ensures
            r == self@.iters,
    {
        self.iters
    }

    /// Adds the next vertex of the starting simplex: first the evaluated
    /// start, whose score seeds the previous best, then one per axis in order.
    pub fn add_vertex(&mut self, v: Vertex<P>)
        requires
            old(self)@.wf(),
            old(self)@.next == Action::Seed || old(self)@.next is Perturb,
        ensures
            final(self)@ == old(self)@.added(v),
            final(self)@.wf(),
    {
        self.vertices.push(v);
        match self.next {
            Action::Seed => {
                self.prev_best = self.vertices[0].score;
                self.next = Action::Perturb(0);
            },
            Action::Perturb(i) => {
                if i + 1 < self.dim {
                    self.next = Action::Perturb(i + 1);
                } else {
                    self.next = Action::Iterate;
                }
            },
            _ => {},
        }
    }

    /// Begins an iteration: sorts the simplex by score, then stops at the
    /// iteration limit, or counts the iteration and compares the best score
    /// with `limit` (the previous best less the improvement threshold).
    /// A NaN score is refused, naming the first vertex that holds one.
    pub fn start_iteration(&mut self, limit: Score) -> (r: Result<Action, OptimizeError>)
        requires
            old(self)@.wf(),
            old(self)@.next == Action::Iterate,
        ensures
            final(self)@.wf(),
            r is Err <==> !all_comparable(old(self)@.vertices),
            r matches Err(e) ==> final(self)@ == old(self)@ && (e matches OptimizeError::IncomparableScore { index }
                && is_first_nan(old(self)@.vertices, index as int)),
            r matches Ok(a) ==> {
                &&& final(self)@ == old(self)@.begun(limit)
                &&& a == final(self)@.next
                &&& sorted_by_score(final(self)@.vertices)
                &&& final(self)@.vertices.to_multiset() =~= old(self)@.vertices.to_multiset()
                &&& final(self)@.best == Some(final(self)@.vertices[0].score)
                &&& old(self)@.iters >= old(self)@.max_iter ==> a == Action::Finish
                &&& old(self)@.holds_best() && old(self)@.best is Some
                    ==> final(self)@.best.unwrap().key() <= old(self)@.best.unwrap().key()
            },
    {
        if let Some(i) = find_nan(&self.vertices) {
            return Err(OptimizeError::IncomparableScore { index: i });
        }
        let ghost before = self@;
        let mut taken: Vec<Vertex<P>> = Vec::new();
        std::mem::swap(&mut taken, &mut self.vertices);
        self.vertices = sort_vertices(taken);
        proof {
            lemma_sort_by_score(before.vertices);
            let vs = self.vertices@;
            assert forall|i: int| 0 <= i < vs.len() implies !(#[trigger] vs[i].score.is_nan_spec()) by {
                assert(before.vertices.to_multiset().count(vs[i]) > 0);
                assert(before.vertices.contains(vs[i]));
            }
            if before.holds_best() && before.best is Some {
                lemma_best_never_rises(before, limit);
            }
        }
        let b = self.vertices[0].score;
        self.best = Some(b);
        if self.iters >= self.max_iter {
            self.next = Action::Finish;
            return Ok(Action::Finish);
        }
        self.iters = self.iters + 1;
        if b.lt(&limit) {
            self.no_improv = 0;
            self.prev_best = b;
        } else {
            self.no_improv = self.no_improv + 1;
        }
        if self.no_improv >= self.no_improv_break {
            self.next = Action::Finish;
        } else {
            self.next = Action::Reflect;
        }
        Ok(self.next)
    }

    fn replace_worst(&mut self, v: Vertex<P>)
        requires
            old(self).vertices.len() > 0,
        ensures
            final(self).vertices@ == old(self).vertices@.update(old(self).vertices@.len() - 1, v),
            final(self).dim == old(self).dim,
            final(self).pending == old(self).pending,
            final(self).prev_best == old(self).prev_best,
            final(self).best == old(self).best,
            final(self).no_improv == old(self).no_improv,
            final(self).iters == old(self).iters,
            final(self).no_improv_break == old(self).no_improv_break,
            final(self).max_iter == old(self).max_iter,
            final(self).next == old(self).next,
    {
        self.vertices.pop();
        self.vertices.push(v);
        assert(self.vertices@ =~= old(self).vertices@.update(old(self).vertices@.len() - 1, v));
    }

    /// Takes the evaluated reflection: it replaces the worst vertex when its
    /// score lies in [best, second worst); when it beats the best an
    /// expansion is asked for; otherwise a contraction.
    pub fn after_reflection(&mut self, r: Vertex<P>) -> (a: Action)
        requires
            old(self)@.wf(),
            old(self)@.next == Action::Reflect,
        ensures
            final(self)@ == old(self)@.reflected(r),
            a == final(self)@.next,
            final(self)@.wf(),
            final(self)@.holds_best(),
    {
        let n = self.dim;
        let accept = self.vertices[0].score.le(&r.score) && r.score.lt(&self.vertices[n - 1].score);
        if accept {
            self.replace_worst(r);
            self.next = Action::Iterate;
        } else if r.score.lt(&self.vertices[0].score) {
            self.pending = Some(r);
            self.next = Action::Expand;
        } else {
            self.next = Action::Contract;
        }
        proof {
            assert(self@.vertices[0].score.le_spec(self@.best.unwrap()));
        }
        self.next
    }

    /// Takes the evaluated expansion: the better of it and the held reflection
    /// (the reflection on a tie) replaces the worst vertex.
    pub fn after_expansion(&mut self, e: Vertex<P>) -> (a: Action)
        requires
            old(self)@.wf(),
            old(self)@.next == Action::Expand,
        ensures
            final(self)@ == old(self)@.expanded(e),
            a == Action::Iterate,
            final(self)@.wf(),
            final(self)@.holds_best(),
    {
        let held = self.pending.take();
        if let Some(r) = held {
            if e.score.lt(&r.score) {
                self.replace_worst(e);
            } else {
                self.replace_worst(r);
            }
        }
        self.next = Action::Iterate;
        proof {
            assert(self@.vertices[0].score.le_spec(self@.best.unwrap()));
        }
        Action::Iterate
    }

    /// Takes the evaluated contraction: it replaces the worst vertex when it
    /// scores strictly better; otherwise the simplex is to shrink.
    pub fn after_contraction(&mut self, c: Vertex<P>) -> (a: Action)
        requires
            old(self)@.wf(),
            old(self)@.next == Action::Contract,
        ensures
            final(self)@ == old(self)@.contracted(c),
            a == final(self)@.next,
            final(self)@.wf(),
            final(self)@.holds_best(),
    {
        let n = self.dim;
        if c.score.lt(&self.vertices[n].score) {
            self.replace_worst(c);
            self.next = Action::Iterate;
        } else {
            self.next = Action::Shrink;
        }
        proof {
            assert(self@.vertices[0].score.le_spec(self@.best.unwrap()));
        }
        self.next
    }

    /// Takes the shrunk simplex, one evaluated vertex per old vertex in order,
    /// the first being the image of the best.
    pub fn after_shrink(&mut self, vs: Vec<Vertex<P>>)
        requires
            old(self)@.wf(),
            old(self)@.next == Action::Shrink,
            vs@.len() == old(self)@.dim + 1,
        ensures
            final(self)@ == old(self)@.shrunk(vs@),
            final(self)@.wf(),
            vs@[0].score.le_spec(old(self)@.best.unwrap()) ==> final(self)@.holds_best(),
    {
        self.vertices = vs;
        self.next = Action::Iterate;
        proof {
            if self@.vertices[0].score.le_spec(self@.best.unwrap()) {
                assert(self@.vertices[0].score.le_spec(self@.best.unwrap()));
            }
        }
    }

    /// Ends the run, handing out the best vertex.
    pub fn into_best(self) -> (r: Vertex<P>)
        requires
            self@.wf(),
            self@.next == Action::Finish,
        ensures
            r == self@.vertices[0],
            forall|i: int| 0 <= i < self@.vertices.len() ==> r.score.key() <= #[trigger] self@.vertices[i].score.key(),
            !r.score.is_nan_spec(),
    {
        let mut vs = self.vertices;
        vs.swap_remove(0)
    }

}


} // verus!
