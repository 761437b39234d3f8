//! The OWL 2 RL profile: list expansion, the schema closure of the
//! terminology box, and the closure of the assertion box.

use crate::collection::{fact, project, relation, tag, tagged};
use crate::inference::horn::{clause, horn2};
use crate::inference::matcher::{fire, lemma_push_contains};
use crate::inference::model::{
    least_model, lemma_least_model_includes_base, lemma_rule_applies, saturate,
};
use crate::inference::rule::{
    abox, all_wf, atom_within, cells, con, covered, derives, ground, guard_mentions,
    lemma_program_views, mentions, program, satisfies, tbox, var, Clause, Fact, Guard, Rel, Rule,
    Term,
};
use crate::materialization::instance::{instance_clauses, instance_rules};
use crate::materialization::schema::{schema_clauses, schema_rules};
use crate::model::consts::constants::owl::{
    intersectionOf, propertyChainAxiom, Class, Nothing, Thing,
};
use crate::materialization::common::links;
use crate::materialization::common::step;
use crate::model::consts::constants::rdfs::{first, nil, rest, type_};
use crate::model::types::{List, Triple};
use vstd::prelude::*;

verus! {

/// `c` is a list cell that holds `m` and is followed by `n`.
pub open spec fn cell(tbox: Set<Triple>, c: u32, m: u32, n: u32) -> bool {
    tbox.contains((c, first, m)) && tbox.contains((c, rest, n))
}

/// Some cell is followed by `c`.
pub open spec fn is_tail(tbox: Set<Triple>, c: u32) -> bool {
    exists|d: u32, m: u32| cell(tbox, d, m, c)
}

/// What follows the `i`-th cell of a chain: the next cell, or `nil` after the last.
pub open spec fn next_of(cells: Seq<u32>, i: int) -> u32 {
    if i + 1 < cells.len() {
        cells[i + 1]
    } else {
        nil
    }
}

/// `cells` is a chain of different cells that starts at a cell which follows
/// no other, runs along `rest` to `nil`, and holds `members` in that order.
pub open spec fn spells(tbox: Set<Triple>, cells: Seq<u32>, members: Seq<u32>) -> bool {
    &&& cells.len() > 0
    &&& cells.len() == members.len()
    &&& cells.no_duplicates()
    &&& !is_tail(tbox, cells[0])
    &&& forall|i: int|
        0 <= i < cells.len() ==> cell(tbox, cells[i], #[trigger] members[i], next_of(cells, i))
}

/// The terminology box holds a list rooted at `head` with these members in cell order.
pub open spec fn expanded(tbox: Set<Triple>, head: u32, members: Seq<u32>) -> bool {
    exists|cells: Seq<u32>| #[trigger] spells(tbox, cells, members) && cells[0] == head
}

/// Some entry of `lists` is the list `(head, members)`.
pub open spec fn listed(lists: Seq<List>, head: u32, members: Seq<u32>) -> bool {
    exists|k: int| 0 <= k < lists.len() && (#[trigger] lists[k]).0 == head && lists[k].1@ == members
}

/// `(c, m, n)` if `(c first m)` and `(c rest n)`: the cells of the terminology box.
pub open spec fn cell_clause() -> Clause {
    clause(
        seq![tbox(var(0), con(first), var(1)), tbox(var(0), con(rest), var(2))],
        cells(var(0), var(1), var(2)),
        Guard::Always,
    )
}

proof fn lemma_cell_clause(tb: Set<Triple>, f: Fact)
    ensures
        derives(cell_clause(), tagged(Rel::Tbox, tb), f) <==> f.rel == Rel::Cell && cell(
            tb,
            f.s,
            f.p,
            f.o,
        ),
{
    let c = cell_clause();
    let db = tagged(Rel::Tbox, tb);
    if derives(c, db, f) {
        let b = choose|b: Seq<u32>| #[trigger] satisfies(c, db, b) && f == ground(c.head, b);
        assert(db.contains(ground(c.body[0], b)));
        assert(db.contains(ground(c.body[1], b)));
    }
    if f.rel == Rel::Cell && cell(tb, f.s, f.p, f.o) {
        let b = seq![f.s, f.p, f.o];
        assert forall|i: int| 0 <= i < c.body.len() implies db.contains(
            #[trigger] ground(c.body[i], b),
        ) by {
            if i == 0 {
            } else {
            }
        }
        assert(satisfies(c, db, b));
        assert(f == ground(c.head, b));
    }
}

/// The cells of the terminology box, each as `(cell, member, next)`.
fn collect_cells(tb: &Vec<Triple>) -> (cells: Vec<Triple>)
    ensures
        forall|c: u32, m: u32, n: u32|
            #![trigger cells@.contains((c, m, n))]
            cells@.contains((c, m, n)) <==> cell(tb@.to_set(), c, m, n),
{
    let rule = horn2(
        tbox(var(0), con(first), var(1)),
        tbox(var(0), con(rest), var(2)),
        cells(var(0), var(1), var(2)),
        Guard::Always,
        3,
    );
    let mut db: Vec<Fact> = Vec::new();
    tag(Rel::Tbox, tb, &mut db);
    let mut found: Vec<Fact> = Vec::new();
    fire(&rule, &db, &mut found);
    let mut cells: Vec<Triple> = Vec::new();
    let mut i: usize = 0;
    proof {
        assert(db@.to_set() =~= tagged(Rel::Tbox, tb@.to_set()));
        assert forall|f: Fact| found@.contains(f) <==> f.rel == Rel::Cell && cell(
            tb@.to_set(),
            f.s,
            f.p,
            f.o,
        ) by {
            lemma_cell_clause(tb@.to_set(), f);
        }
    }
    while i < found.len()
        invariant
            i <= found.len(),
            forall|f: Fact|
                found@.contains(f) <==> f.rel == Rel::Cell && cell(tb@.to_set(), f.s, f.p, f.o),
            forall|c: u32, m: u32, n: u32|
                #![trigger cells@.contains((c, m, n))]
                cells@.contains((c, m, n)) <==> found@.take(i as int).contains(
                    Fact { rel: Rel::Cell, s: c, p: m, o: n },
                ),
        decreases found.len() - i,
    {
        let f = found[i];
        let ghost before = cells@;
        let ghost seen = found@.take(i as int);
        assert(found@.contains(f));
        cells.push((f.s, f.p, f.o));
        proof {
            assert(found@.take(i + 1) == seen.push(f));
            assert forall|c: u32, m: u32, n: u32| #![trigger cells@.contains((c, m, n))]
                cells@.contains((c, m, n)) <==> seen.push(f).contains(
                    Fact { rel: Rel::Cell, s: c, p: m, o: n },
                ) by {
                lemma_push_contains(before, (f.s, f.p, f.o), (c, m, n));
                lemma_push_contains(seen, f, Fact { rel: Rel::Cell, s: c, p: m, o: n });
            }
        }
        i += 1;
    }
    proof {
        assert(found@.take(found@.len() as int) == found@);
    }
    cells
}

/// Whether some cell of `cells` is followed by `c`.
fn follows_some(cells: &Vec<Triple>, c: u32) -> (b: bool)
    ensures
        b <==> exists|i: int| 0 <= i < cells@.len() && (#[trigger] cells@[i]).2 == c,
{
    let mut i: usize = 0;
    while i < cells.len()
        invariant
            i <= cells.len(),
            forall|j: int| 0 <= j < i ==> (#[trigger] cells@[j]).2 != c,
        decreases cells.len() - i,
    {
        if cells[i].2 == c {
            return true;
        }
        i += 1;
    }
    false
}

/// The cells of `avail` other than `c`.
fn without(avail: &Vec<Triple>, c: u32) -> (r: Vec<Triple>)
    ensures
        forall|x: Triple| #![trigger r@.contains(x)] r@.contains(x) <==> avail@.contains(x) && x.0 != c,
        r@.len() <= avail@.len(),
        (exists|j: int| 0 <= j < avail@.len() && (#[trigger] avail@[j]).0 == c) ==> r@.len()
            < avail@.len(),
{
    let mut r: Vec<Triple> = Vec::new();
    let mut i: usize = 0;
    while i < avail.len()
        invariant
            i <= avail.len(),
            r@.len() <= i,
            (exists|j: int| 0 <= j < i && (#[trigger] avail@[j]).0 == c) ==> r@.len() < i,
            forall|x: Triple|
                #![trigger r@.contains(x)]
                r@.contains(x) <==> avail@.take(i as int).contains(x) && x.0 != c,
        decreases avail.len() - i,
    {
        let x = avail[i];
        let ghost before = r@;
        let ghost seen = avail@.take(i as int);
        proof {
            assert(avail@.take(i + 1) == seen.push(x));
        }
        if x.0 != c {
            r.push(x);
            proof {
                assert forall|y: Triple| #![trigger r@.contains(y)]
                    r@.contains(y) <==> seen.push(x).contains(y) && y.0 != c by {
                    lemma_push_contains(before, x, y);
                    lemma_push_contains(seen, x, y);
                }
            }
        } else {
            proof {
                assert forall|y: Triple| #![trigger r@.contains(y)]
                    r@.contains(y) <==> seen.push(x).contains(y) && y.0 != c by {
                    lemma_push_contains(seen, x, y);
                }
            }
        }
        i += 1;
    }
    proof {
        assert(avail@.take(avail@.len() as int) == avail@);
    }
    r
}

/// A copy of `v`.
fn copy_of(v: &Vec<u32>) -> (r: Vec<u32>)
    ensures
        r@ == v@,
{
    let mut r: Vec<u32> = Vec::new();
    let mut i: usize = 0;
    while i < v.len()
        invariant
            i <= v.len(),
            r@ == v@.take(i as int),
        decreases v.len() - i,
    {
        r.push(v[i]);
        i += 1;
        assert(r@ == v@.take(i as int));
    }
    assert(v@.take(v@.len() as int) == v@);
    r
}

/// A copy of `v` with `x` appended.
fn extended(v: &Vec<u32>, x: u32) -> (r: Vec<u32>)
    ensures
        r@ == v@.push(x),
{
    let mut r: Vec<u32> = Vec::new();
    let mut i: usize = 0;
    while i < v.len()
        invariant
            i <= v.len(),
            r@ == v@.take(i as int),
        decreases v.len() - i,
    {
        r.push(v[i]);
        i += 1;
        assert(r@ == v@.take(i as int));
    }
    assert(v@.take(v@.len() as int) == v@);
    r.push(x);
    r
}

/// The chain `cells` with `members` spells a list and starts with `path` and
/// `ms`; where `path` is not empty, `tail` follows its last cell in the chain.
spec fn finishes(
    tb: Set<Triple>,
    path: Seq<u32>,
    ms: Seq<u32>,
    tail: u32,
    cells: Seq<u32>,
    members: Seq<u32>,
) -> bool {
    &&& spells(tb, cells, members)
    &&& path.len() <= cells.len()
    &&& cells.take(path.len() as int) == path
    &&& members.take(path.len() as int) == ms
    &&& path.len() > 0 ==> next_of(cells, path.len() - 1) == tail
}

/// Some chain finishes `path` and spells the list `(head, members)`.
spec fn grows_to(
    tb: Set<Triple>,
    path: Seq<u32>,
    ms: Seq<u32>,
    tail: u32,
    head: u32,
    members: Seq<u32>,
) -> bool {
    exists|cells: Seq<u32>| #[trigger] finishes(tb, path, ms, tail, cells, members) && cells[0] == head
}

/// `x` is one of the first `j` cells of `avail`.
spec fn offered(avail: Seq<Triple>, j: int, x: Triple) -> bool {
    exists|i: int| 0 <= i < j && i < avail.len() && #[trigger] avail[i] == x
}

/// As `grows_to`, by a chain that goes on after `path` with one of the first `j` cells of `avail`.
spec fn grows_via(
    tb: Set<Triple>,
    path: Seq<u32>,
    ms: Seq<u32>,
    tail: u32,
    avail: Seq<Triple>,
    j: int,
    head: u32,
    members: Seq<u32>,
) -> bool {
    exists|cells: Seq<u32>|
        #[trigger] finishes(tb, path, ms, tail, cells, members) && cells[0] == head && cells.len()
            > path.len() && offered(
            avail,
            j,
            (cells[path.len() as int], members[path.len() as int], next_of(cells, path.len() as int)),
        )
}

/// The chain that ends with `path` itself is a list.
spec fn ends_here(path: Seq<u32>, ms: Seq<u32>, tail: u32, head: u32, members: Seq<u32>) -> bool {
    path.len() > 0 && tail == nil && head == path[0] && members == ms
}

proof fn lemma_grows_via_more(
    tb: Set<Triple>,
    path: Seq<u32>,
    ms: Seq<u32>,
    tail: u32,
    avail: Seq<Triple>,
    j: int,
    head: u32,
    members: Seq<u32>,
)
    requires
        grows_via(tb, path, ms, tail, avail, j, head, members),
    ensures
        grows_via(tb, path, ms, tail, avail, j + 1, head, members),
{
    let cells = choose|cells: Seq<u32>|
        #[trigger] finishes(tb, path, ms, tail, cells, members) && cells[0] == head && cells.len()
            > path.len() && offered(
            avail,
            j,
            (cells[path.len() as int], members[path.len() as int], next_of(cells, path.len() as int)),
        );
    let x = (cells[path.len() as int], members[path.len() as int], next_of(cells, path.len() as int));
    let i = choose|i: int| 0 <= i < j && i < avail.len() && #[trigger] avail[i] == x;
    assert(avail[i] == x);
    assert(offered(avail, j + 1, x));
}

/// What the walk knows of where it stands.
#[verifier::opaque]
spec fn on_track(
    tb: Set<Triple>,
    all: Seq<Triple>,
    avail: Seq<Triple>,
    path: Seq<u32>,
    ms: Seq<u32>,
    tail: u32,
) -> bool {
    &&& forall|c: u32, m: u32, n: u32|
        #![trigger all.contains((c, m, n))]
        all.contains((c, m, n)) <==> cell(tb, c, m, n)
    &&& forall|x: Triple|
        #![trigger avail.contains(x)]
        avail.contains(x) <==> all.contains(x) && !path.contains(x.0)
    &&& path.len() == ms.len()
    &&& path.no_duplicates()
    &&& path.len() > 0 ==> {
        &&& !is_tail(tb, path[0])
        &&& forall|i: int|
            0 <= i < path.len() - 1 ==> cell(tb, path[i], #[trigger] ms[i], path[i + 1])
        &&& cell(tb, path.last(), ms.last(), tail)
    }
}

/// The cell `x` can go on after `path`.
spec fn fits_after(tb: Set<Triple>, path: Seq<u32>, tail: u32, x: Triple) -> bool {
    if path.len() == 0 {
        !is_tail(tb, x.0)
    } else {
        x.0 == tail
    }
}

proof fn lemma_follows(tb: Set<Triple>, all: Seq<Triple>, c: u32, followed: bool)
    requires
        forall|c: u32, m: u32, n: u32|
            #![trigger all.contains((c, m, n))]
            all.contains((c, m, n)) <==> cell(tb, c, m, n),
        followed <==> exists|i: int| 0 <= i < all.len() && (#[trigger] all[i]).2 == c,
    ensures
        followed <==> is_tail(tb, c),
{
    if followed {
        let i = choose|i: int| 0 <= i < all.len() && (#[trigger] all[i]).2 == c;
        let y = all[i];
        assert(all.contains((y.0, y.1, y.2)));
        assert(cell(tb, y.0, y.1, c));
    }
    if is_tail(tb, c) {
        let (d, m) = choose|d: u32, m: u32| cell(tb, d, m, c);
        assert(all.contains((d, m, c)));
        let i = choose|i: int| 0 <= i < all.len() && all[i] == (d, m, c);
        assert(all[i].2 == c);
    }
}

proof fn lemma_track_cells(
    tb: Set<Triple>,
    all: Seq<Triple>,
    avail: Seq<Triple>,
    path: Seq<u32>,
    ms: Seq<u32>,
    tail: u32,
)
    requires
        on_track(tb, all, avail, path, ms, tail),
    ensures
        forall|c: u32, m: u32, n: u32|
            #![trigger all.contains((c, m, n))]
            all.contains((c, m, n)) <==> cell(tb, c, m, n),
        path.len() == ms.len(),
{
    reveal(on_track);
}

proof fn lemma_step_on_track(
    tb: Set<Triple>,
    all: Seq<Triple>,
    avail: Seq<Triple>,
    avail2: Seq<Triple>,
    path: Seq<u32>,
    ms: Seq<u32>,
    tail: u32,
    x: Triple,
)
    requires
        on_track(tb, all, avail, path, ms, tail),
        avail.contains(x),
        fits_after(tb, path, tail, x),
        forall|y: Triple|
            #![trigger avail2.contains(y)]
            avail2.contains(y) <==> avail.contains(y) && y.0 != x.0,
    ensures
        on_track(tb, all, avail2, path.push(x.0), ms.push(x.1), x.2),
{
    reveal(on_track);
    let path2 = path.push(x.0);
    let ms2 = ms.push(x.1);
    let len = path.len() as int;
    assert(all.contains((x.0, x.1, x.2)));
    assert forall|y: Triple| #![trigger avail2.contains(y)]
        avail2.contains(y) <==> all.contains(y) && !path2.contains(y.0) by {
        lemma_push_contains(path, x.0, y.0);
    }
    assert(!path.contains(x.0));
    assert forall|a: int, b: int|
        0 <= a < path2.len() && 0 <= b < path2.len() && a != b implies path2[a] != path2[b] by {
        if a < len {
            assert(path[a] == path2[a]);
            assert(path.contains(path2[a]));
        }
        if b < len {
            assert(path[b] == path2[b]);
            assert(path.contains(path2[b]));
        }
    }
    assert forall|i: int| 0 <= i < path2.len() - 1 implies cell(
        tb,
        path2[i],
        #[trigger] ms2[i],
        path2[i + 1],
    ) by {
        if i < len - 1 {
            assert(cell(tb, path[i], ms[i], path[i + 1]));
        } else {
            assert(path2[i] == path.last());
            assert(ms2[i] == ms.last());
        }
    }
    if len > 0 {
        assert(path2[0] == path[0]);
    }
    assert(cell(tb, path2.last(), ms2.last(), x.2));
}

proof fn lemma_step_sound(
    tb: Set<Triple>,
    avail: Seq<Triple>,
    path: Seq<u32>,
    ms: Seq<u32>,
    tail: u32,
    j: int,
    h: u32,
    m: Seq<u32>,
)
    requires
        0 <= j < avail.len(),
        path.len() == ms.len(),
        path.len() > 0 ==> avail[j].0 == tail,
        grows_to(tb, path.push(avail[j].0), ms.push(avail[j].1), avail[j].2, h, m),
    ensures
        grows_via(tb, path, ms, tail, avail, j + 1, h, m),
{
    let x = avail[j];
    let path2 = path.push(x.0);
    let ms2 = ms.push(x.1);
    let len = path.len() as int;
    let cells = choose|cells: Seq<u32>| #[trigger]
        finishes(tb, path2, ms2, x.2, cells, m) && cells[0] == h;
    assert(cells.take(len) =~= cells.take(len + 1).take(len));
    assert(m.take(len) =~= m.take(len + 1).take(len));
    assert(path2.take(len) =~= path);
    assert(ms2.take(len) =~= ms);
    assert(cells.take(len + 1)[len] == x.0);
    assert(m.take(len + 1)[len] == x.1);
    if len > 0 {
        assert(next_of(cells, len - 1) == cells[len]);
    }
    assert(finishes(tb, path, ms, tail, cells, m));
    assert(avail[j] == (cells[len], m[len], next_of(cells, len)));
    assert(offered(avail, j + 1, (cells[len], m[len], next_of(cells, len))));
}

proof fn lemma_step_complete(
    tb: Set<Triple>,
    avail: Seq<Triple>,
    path: Seq<u32>,
    ms: Seq<u32>,
    tail: u32,
    j: int,
    h: u32,
    m: Seq<u32>,
)
    requires
        0 <= j < avail.len(),
        path.len() == ms.len(),
        grows_via(tb, path, ms, tail, avail, j + 1, h, m),
    ensures
        grows_via(tb, path, ms, tail, avail, j, h, m) || (fits_after(tb, path, tail, avail[j])
            && grows_to(tb, path.push(avail[j].0), ms.push(avail[j].1), avail[j].2, h, m)),
{
    let x = avail[j];
    let len = path.len() as int;
    let cells = choose|cells: Seq<u32>|
        #[trigger] finishes(tb, path, ms, tail, cells, m) && cells[0] == h && cells.len() > len
            && offered(avail, j + 1, (cells[len], m[len], next_of(cells, len)));
    let y = (cells[len], m[len], next_of(cells, len));
    let i = choose|i: int| 0 <= i < j + 1 && i < avail.len() && #[trigger] avail[i] == y;
    if i < j {
        assert(offered(avail, j, y));
    } else {
        assert(y == x);
        assert(cells.take(len + 1) =~= cells.take(len).push(cells[len]));
        assert(m.take(len + 1) =~= m.take(len).push(m[len]));
        assert(finishes(tb, path.push(x.0), ms.push(x.1), x.2, cells, m));
        if len > 0 {
            assert(next_of(cells, len - 1) == cells[len]);
        } else {
            assert(cells[0] == x.0);
        }
    }
}

proof fn lemma_walk_done(
    tb: Set<Triple>,
    all: Seq<Triple>,
    avail: Seq<Triple>,
    path: Seq<u32>,
    ms: Seq<u32>,
    tail: u32,
    h: u32,
    m: Seq<u32>,
)
    requires
        on_track(tb, all, avail, path, ms, tail),
    ensures
        grows_to(tb, path, ms, tail, h, m) <==> ends_here(path, ms, tail, h, m) || grows_via(
            tb,
            path,
            ms,
            tail,
            avail,
            avail.len() as int,
            h,
            m,
        ),
{
    reveal(on_track);
    let len = path.len() as int;
    let n = avail.len() as int;
    if grows_to(tb, path, ms, tail, h, m) {
        let cells = choose|cells: Seq<u32>| #[trigger]
            finishes(tb, path, ms, tail, cells, m) && cells[0] == h;
        if cells.len() == len {
            assert(cells.take(len) =~= cells);
            assert(m.take(len) =~= m);
        } else {
            let y = (cells[len], m[len], next_of(cells, len));
            assert(cell(tb, cells[len], m[len], next_of(cells, len)));
            assert(all.contains((cells[len], m[len], next_of(cells, len))));
            if path.contains(cells[len]) {
                let i = choose|i: int| 0 <= i < path.len() && path[i] == cells[len];
                assert(cells.take(len)[i] == cells[i]);
            }
            assert(avail.contains(y));
            let i = choose|i: int| 0 <= i < avail.len() && avail[i] == y;
            assert(avail[i] == y);
            assert(offered(avail, n, y));
        }
    }
    if ends_here(path, ms, tail, h, m) {
        assert(path.take(len) =~= path);
        assert(ms.take(len) =~= ms);
        assert forall|i: int| 0 <= i < path.len() implies cell(
            tb,
            path[i],
            #[trigger] ms[i],
            next_of(path, i),
        ) by {
            if i < len - 1 {
                assert(cell(tb, path[i], ms[i], path[i + 1]));
            }
        }
        assert(finishes(tb, path, ms, tail, path, ms));
    }
}

proof fn lemma_listed_push(out: Seq<List>, entry: List, h: u32, m: Seq<u32>)
    ensures
        listed(out.push(entry), h, m) <==> listed(out, h, m) || (entry.0 == h && entry.1@ == m),
{
    let more = out.push(entry);
    if listed(more, h, m) {
        let k = choose|k: int| 0 <= k < more.len() && (#[trigger] more[k]).0 == h && more[k].1@ == m;
        if k < out.len() {
            assert(out[k] == more[k]);
        }
    }
    if listed(out, h, m) {
        let k = choose|k: int| 0 <= k < out.len() && (#[trigger] out[k]).0 == h && out[k].1@ == m;
        assert(more[k] == out[k]);
    }
    if entry.0 == h && entry.1@ == m {
        assert(more[out.len() as int] == entry);
    }
}

/// Adds to `out` every list that some chain through the cells of `avail` spells after `path`.
fn walk(
    Ghost(tb): Ghost<Set<Triple>>,
    all: &Vec<Triple>,
    avail: &Vec<Triple>,
    path: &Vec<u32>,
    ms: &Vec<u32>,
    tail: u32,
    out: &mut Vec<List>,
)
    requires
        on_track(tb, all@, avail@, path@, ms@, tail),
    ensures
        forall|h: u32, m: Seq<u32>|
            #![trigger listed(final(out)@, h, m)]
            listed(final(out)@, h, m) <==> listed(old(out)@, h, m) || grows_to(
                tb,
                path@,
                ms@,
                tail,
                h,
                m,
            ),
    decreases avail@.len(),
{
    let ghost out0 = out@;
    proof {
        lemma_track_cells(tb, all@, avail@, path@, ms@, tail);
    }
    if path.len() > 0 && tail == nil {
        let copy = copy_of(ms);
        let head = path[0];
        let ghost entry = (head, copy);
        out.push((head, copy));
        proof {
            assert forall|h: u32, m: Seq<u32>| #![trigger listed(out@, h, m)]
                listed(out@, h, m) <==> listed(out0, h, m) || ends_here(path@, ms@, tail, h, m) by {
                lemma_listed_push(out0, entry, h, m);
            }
        }
    }
    let mut j: usize = 0;
    while j < avail.len()
        invariant
            j <= avail.len(),
            path@.len() == ms@.len(),
            on_track(tb, all@, avail@, path@, ms@, tail),
            forall|c: u32, m: u32, n: u32|
                #![trigger all@.contains((c, m, n))]
                all@.contains((c, m, n)) <==> cell(tb, c, m, n),
            forall|h: u32, m: Seq<u32>|
                #![trigger listed(out@, h, m)]
                listed(out@, h, m) <==> listed(out0, h, m) || ends_here(path@, ms@, tail, h, m)
                    || grows_via(tb, path@, ms@, tail, avail@, j as int, h, m),
        decreases avail.len() - j,
    {
        let x = avail[j];
        let ghost before = out@;
        let ghost j0 = j as int;
        let ghost j1 = j + 1;
        assert(avail@.contains(x));
        let fits = if path.len() == 0 {
            let followed = follows_some(all, x.0);
            proof {
                lemma_follows(tb, all@, x.0, followed);
            }
            !followed
        } else {
            x.0 == tail
        };
        assert(fits == fits_after(tb, path@, tail, x));
        if fits {
            let path2 = extended(path, x.0);
            let ms2 = extended(ms, x.1);
            let avail2 = without(avail, x.0);
            proof {
                assert(avail@[j0].0 == x.0);
                lemma_step_on_track(tb, all@, avail@, avail2@, path@, ms@, tail, x);
            }
            walk(Ghost(tb), all, &avail2, &path2, &ms2, x.2, out);
            proof {
                assert forall|h: u32, m: Seq<u32>| #![trigger listed(out@, h, m)]
                    listed(out@, h, m) <==> listed(out0, h, m) || ends_here(path@, ms@, tail, h, m)
                        || grows_via(tb, path@, ms@, tail, avail@, j1, h, m) by {
                    assert(listed(out@, h, m) <==> listed(before, h, m) || grows_to(
                        tb,
                        path2@,
                        ms2@,
                        x.2,
                        h,
                        m,
                    ));
                    assert(listed(before, h, m) <==> listed(out0, h, m) || ends_here(
                        path@,
                        ms@,
                        tail,
                        h,
                        m,
                    ) || grows_via(tb, path@, ms@, tail, avail@, j0, h, m));
                    if grows_via(tb, path@, ms@, tail, avail@, j0, h, m) {
                        lemma_grows_via_more(tb, path@, ms@, tail, avail@, j0, h, m);
                    }
                    if grows_to(tb, path2@, ms2@, x.2, h, m) {
                        lemma_step_sound(tb, avail@, path@, ms@, tail, j0, h, m);
                    }
                    if grows_via(tb, path@, ms@, tail, avail@, j1, h, m) {
                        lemma_step_complete(tb, avail@, path@, ms@, tail, j0, h, m);
                    }
                }
            }
        } else {
            proof {
                assert forall|h: u32, m: Seq<u32>| #![trigger listed(out@, h, m)]
                    listed(out@, h, m) <==> listed(out0, h, m) || ends_here(path@, ms@, tail, h, m)
                        || grows_via(tb, path@, ms@, tail, avail@, j1, h, m) by {
                    if grows_via(tb, path@, ms@, tail, avail@, j0, h, m) {
                        lemma_grows_via_more(tb, path@, ms@, tail, avail@, j0, h, m);
                    }
                    if grows_via(tb, path@, ms@, tail, avail@, j1, h, m) {
                        lemma_step_complete(tb, avail@, path@, ms@, tail, j0, h, m);
                    }
                }
            }
        }
        j += 1;
    }
    proof {
        assert forall|h: u32, m: Seq<u32>| #![trigger listed(out@, h, m)]
            listed(out@, h, m) <==> listed(out0, h, m) || grows_to(tb, path@, ms@, tail, h, m) by {
            lemma_walk_done(tb, all@, avail@, path@, ms@, tail, h, m);
        }
    }
}

/// No cell holds two members and none is followed by two cells.
pub open spec fn functional(tbox: Set<Triple>) -> bool {
    forall|c: u32, p: u32, x: u32, y: u32|
        #![trigger tbox.contains((c, p, x)), tbox.contains((c, p, y))]
        (p == first || p == rest) && tbox.contains((c, p, x)) && tbox.contains((c, p, y)) ==> x
            == y
}

/// No chain of `rest` leads from an identifier back to itself.
pub open spec fn acyclic(tbox: Set<Triple>) -> bool {
    forall|chain: Seq<u32>| #[trigger] links(tbox, rest, chain) ==> chain[0] != chain.last()
}

/// No list stands twice in the vector.
pub open spec fn each_once(lists: Seq<List>) -> bool {
    forall|i: int, j: int|
        0 <= i < j < lists.len() ==> !((#[trigger] lists[i]).0 == (#[trigger] lists[j]).0
            && lists[i].1@ == lists[j].1@)
}

/// No two lists of the vector have the same head.
pub open spec fn heads_differ(lists: Seq<List>) -> bool {
    forall|i: int, j: int|
        0 <= i < j < lists.len() ==> (#[trigger] lists[i]).0 != (#[trigger] lists[j]).0
}

proof fn lemma_chains_agree(
    tbox: Set<Triple>,
    c1: Seq<u32>,
    m1: Seq<u32>,
    c2: Seq<u32>,
    m2: Seq<u32>,
    i: int,
)
    requires
        functional(tbox),
        spells(tbox, c1, m1),
        spells(tbox, c2, m2),
        c1[0] == c2[0],
        0 <= i < c1.len(),
        i < c2.len(),
    ensures
        c1[i] == c2[i],
        m1[i] == m2[i],
    decreases i,
{
    if i > 0 {
        lemma_chains_agree(tbox, c1, m1, c2, m2, i - 1);
        assert(cell(tbox, c1[i - 1], m1[i - 1], next_of(c1, i - 1)));
        assert(cell(tbox, c2[i - 1], m2[i - 1], next_of(c2, i - 1)));
        assert(tbox.contains((c1[i - 1], rest, c1[i])));
        assert(tbox.contains((c1[i - 1], rest, c2[i])));
    }
    assert(cell(tbox, c1[i], m1[i], next_of(c1, i)));
    assert(cell(tbox, c2[i], m2[i], next_of(c2, i)));
    assert(tbox.contains((c1[i], first, m1[i])));
    assert(tbox.contains((c1[i], first, m2[i])));
}

proof fn lemma_no_longer_chain(
    tbox: Set<Triple>,
    c1: Seq<u32>,
    m1: Seq<u32>,
    c2: Seq<u32>,
    m2: Seq<u32>,
)
    requires
        functional(tbox),
        acyclic(tbox),
        spells(tbox, c1, m1),
        spells(tbox, c2, m2),
        c1[0] == c2[0],
    ensures
        c1.len() >= c2.len(),
{
    if c1.len() < c2.len() {
        let n = c1.len() as int;
        lemma_chains_agree(tbox, c1, m1, c2, m2, n - 1);
        assert(cell(tbox, c1[n - 1], m1[n - 1], next_of(c1, n - 1)));
        assert(cell(tbox, c2[n - 1], m2[n - 1], next_of(c2, n - 1)));
        assert(tbox.contains((c1[n - 1], rest, nil)));
        assert(tbox.contains((c1[n - 1], rest, c2[n])));
        assert(c2[n] == nil);
        let chain = c2.subrange(n, c2.len() as int).push(nil);
        assert forall|i: int| 0 <= i < chain.len() - 1 implies #[trigger] step(
            tbox,
            rest,
            chain,
            i,
        ) by {
            assert(cell(tbox, c2[n + i], m2[n + i], next_of(c2, n + i)));
            assert(chain[i] == c2[n + i]);
            assert(chain[i + 1] == next_of(c2, n + i));
        }
        assert(links(tbox, rest, chain));
        assert(chain[0] == nil);
        assert(chain.last() == nil);
    }
}

/// Where no cell holds two members or is followed by two cells and the
/// cells form no ring, a head has one list at most.
pub proof fn lemma_one_list_a_head(tbox: Set<Triple>, head: u32, m1: Seq<u32>, m2: Seq<u32>)
    requires
        functional(tbox),
        acyclic(tbox),
        expanded(tbox, head, m1),
        expanded(tbox, head, m2),
    ensures
        m1 == m2,
{
    let c1 = choose|c: Seq<u32>| #[trigger] spells(tbox, c, m1) && c[0] == head;
    let c2 = choose|c: Seq<u32>| #[trigger] spells(tbox, c, m2) && c[0] == head;
    lemma_no_longer_chain(tbox, c1, m1, c2, m2);
    lemma_no_longer_chain(tbox, c2, m2, c1, m1);
    assert forall|i: int| 0 <= i < m1.len() implies m1[i] == m2[i] by {
        lemma_chains_agree(tbox, c1, m1, c2, m2, i);
    }
    assert(m1 =~= m2);
}

/// Where each list stands once and a head has one list at most, no two entries share a head.
proof fn lemma_heads_differ(tbox: Set<Triple>, lists: Seq<List>)
    requires
        list_set(lists) == lists_of(tbox),
        each_once(lists),
        functional(tbox),
        acyclic(tbox),
    ensures
        heads_differ(lists),
{
    assert forall|i: int, j: int| 0 <= i < j < lists.len() implies (#[trigger] lists[i]).0 != (
    #[trigger] lists[j]).0 by {
        if lists[i].0 == lists[j].0 {
            let head = lists[i].0;
            assert(listed(lists, head, lists[i].1@));
            assert(listed(lists, head, lists[j].1@));
            assert(list_set(lists).contains((head, lists[i].1@)));
            assert(list_set(lists).contains((head, lists[j].1@)));
            assert(lists_of(tbox).contains((head, lists[i].1@)));
            assert(lists_of(tbox).contains((head, lists[j].1@)));
            lemma_one_list_a_head(tbox, head, lists[i].1@, lists[j].1@);
        }
    }
}

/// Whether the two sequences of members are the same.
fn same_members(a: &Vec<u32>, b: &Vec<u32>) -> (r: bool)
    ensures
        r == (a@ == b@),
{
    if a.len() != b.len() {
        return false;
    }
    let mut i: usize = 0;
    while i < a.len()
        invariant
            i <= a.len(),
            a@.len() == b@.len(),
            forall|j: int| 0 <= j < i ==> a@[j] == b@[j],
        decreases a.len() - i,
    {
        if a[i] != b[i] {
            return false;
        }
        i += 1;
    }
    assert(a@ =~= b@);
    true
}

/// Whether the list `(head, members)` stands in the vector.
fn recorded(lists: &Vec<List>, head: u32, members: &Vec<u32>) -> (r: bool)
    ensures
        r == listed(lists@, head, members@),
{
    let mut k: usize = 0;
    while k < lists.len()
        invariant
            k <= lists.len(),
            forall|j: int|
                0 <= j < k ==> !((#[trigger] lists@[j]).0 == head && lists@[j].1@ == members@),
        decreases lists.len() - k,
    {
        if lists[k].0 == head && same_members(&lists[k].1, members) {
            return true;
        }
        k += 1;
    }
    false
}

/// The lists of the vector, each once, in the order of their first occurrence.
fn once(lists: &Vec<List>) -> (r: Vec<List>)
    ensures
        list_set(r@) == list_set(lists@),
        each_once(r@),
{
    let mut r: Vec<List> = Vec::new();
    let mut i: usize = 0;
    while i < lists.len()
        invariant
            i <= lists.len(),
            each_once(r@),
            forall|h: u32, m: Seq<u32>|
                #![trigger listed(r@, h, m)]
                listed(r@, h, m) <==> listed(lists@.take(i as int), h, m),
        decreases lists.len() - i,
    {
        let ghost before = r@;
        let ghost seen = lists@.take(i as int);
        let ghost entry = lists@[i as int];
        proof {
            assert(lists@.take(i + 1) == seen.push(entry));
        }
        if !recorded(&r, lists[i].0, &lists[i].1) {
            let copy = copy_of(&lists[i].1);
            let ghost added = (lists@[i as int].0, copy);
            r.push((lists[i].0, copy));
            proof {
                assert forall|h: u32, m: Seq<u32>| #![trigger listed(r@, h, m)]
                    listed(r@, h, m) <==> listed(seen.push(entry), h, m) by {
                    lemma_listed_push(before, added, h, m);
                    lemma_listed_push(seen, entry, h, m);
                }
                assert forall|a: int, b: int| 0 <= a < b < r@.len() implies !((
                #[trigger] r@[a]).0 == (#[trigger] r@[b]).0 && r@[a].1@ == r@[b].1@) by {
                    if b == before.len() {
                        assert(r@[a] == before[a]);
                        if r@[a].0 == r@[b].0 && r@[a].1@ == r@[b].1@ {
                            assert(listed(before, entry.0, entry.1@));
                        }
                    } else {
                        assert(r@[a] == before[a] && r@[b] == before[b]);
                    }
                }
            }
        } else {
            proof {
                assert forall|h: u32, m: Seq<u32>| #![trigger listed(r@, h, m)]
                    listed(r@, h, m) <==> listed(seen.push(entry), h, m) by {
                    lemma_listed_push(seen, entry, h, m);
                }
            }
        }
        i += 1;
    }
    proof {
        assert(lists@.take(lists@.len() as int) == lists@);
        assert(list_set(r@) =~= list_set(lists@));
    }
    r
}

/// The lists of the terminology box: for every chain of cells from a cell
/// that follows no other to `nil`, its first cell with the members in cell
/// order. Each list stands once; where no cell holds two members or is
/// followed by two cells and the cells form no ring, each head stands once.
pub fn expand_lists(tbox: &Vec<Triple>) -> (lists: Vec<List>)
    ensures
        list_set(lists@) == lists_of(tbox@.to_set()),
        each_once(lists@),
        functional(tbox@.to_set()) && acyclic(tbox@.to_set()) ==> heads_differ(lists@),
{
    let cells = collect_cells(tbox);
    let path: Vec<u32> = Vec::new();
    let ms: Vec<u32> = Vec::new();
    let mut found: Vec<List> = Vec::new();
    let ghost tb = tbox@.to_set();
    proof {
        reveal(on_track);
        assert(on_track(tb, cells@, cells@, path@, ms@, 0));
    }
    walk(Ghost(tb), &cells, &cells, &path, &ms, 0, &mut found);
    proof {
        assert forall|head: u32, members: Seq<u32>| #![trigger listed(found@, head, members)]
            listed(found@, head, members) <==> expanded(tb, head, members) by {
            if grows_to(tb, path@, ms@, 0, head, members) {
                let c = choose|c: Seq<u32>| #[trigger]
                    finishes(tb, path@, ms@, 0, c, members) && c[0] == head;
                assert(spells(tb, c, members));
            }
            if expanded(tb, head, members) {
                let c = choose|c: Seq<u32>| #[trigger] spells(tb, c, members) && c[0] == head;
                assert(c.take(0) =~= path@);
                assert(members.take(0) =~= ms@);
                assert(finishes(tb, path@, ms@, 0, c, members));
            }
        }
        assert(list_set(found@) =~= lists_of(tb));
    }
    let lists = once(&found);
    proof {
        if functional(tb) && acyclic(tb) {
            lemma_heads_differ(tb, lists@);
        }
    }
    lists
}

/// The members of the lists of a vector as facts.
spec fn seq_membership(lists: Seq<List>) -> Set<Fact> {
    Set::new(
        |f: Fact|
            f.rel == Rel::Member && f.p == first && exists|k: int, i: int|
                0 <= k < lists.len() && 0 <= i < lists[k].1@.len() && lists[k].0 == f.s
                    && #[trigger] lists[k].1@[i] == f.o,
    )
}

/// The lists that a vector holds, as a set of `(head, members)`.
pub open spec fn list_set(lists: Seq<List>) -> Set<(u32, Seq<u32>)> {
    Set::new(|l: (u32, Seq<u32>)| listed(lists, l.0, l.1))
}

/// The lists of a terminology box, as a set of `(head, members)`.
pub open spec fn lists_of(tbox: Set<Triple>) -> Set<(u32, Seq<u32>)> {
    Set::new(|l: (u32, Seq<u32>)| expanded(tbox, l.0, l.1))
}

/// The members of the given lists as facts: `(head, first, member)`.
pub open spec fn membership(lists: Set<(u32, Seq<u32>)>) -> Set<Fact> {
    Set::new(
        |f: Fact|
            f.rel == Rel::Member && f.p == first && exists|members: Seq<u32>|
                #![trigger lists.contains((f.s, members))]
                lists.contains((f.s, members)) && members.contains(f.o),
    )
}

/// The members of the lists of a vector are the members of its set of lists.
proof fn lemma_membership(lists: Seq<List>)
    ensures
        seq_membership(lists) == membership(list_set(lists)),
{
    let ls = list_set(lists);
    assert forall|f: Fact| seq_membership(lists).contains(f) <==> membership(ls).contains(f) by {
        if seq_membership(lists).contains(f) {
            let (k, i) = choose|k: int, i: int|
                0 <= k < lists.len() && 0 <= i < lists[k].1@.len() && lists[k].0 == f.s
                    && #[trigger] lists[k].1@[i] == f.o;
            assert(listed(lists, f.s, lists[k].1@));
            assert(ls.contains((f.s, lists[k].1@)));
            assert(lists[k].1@.contains(f.o));
        }
        if membership(ls).contains(f) {
            let members = choose|members: Seq<u32>|
                #![trigger ls.contains((f.s, members))]
                ls.contains((f.s, members)) && members.contains(f.o);
            assert(listed(lists, f.s, members));
            let k = choose|k: int|
                0 <= k < lists.len() && (#[trigger] lists[k]).0 == f.s && lists[k].1@ == members;
            let i = choose|i: int| 0 <= i < members.len() && members[i] == f.o;
            assert(lists[k].1@[i] == f.o);
        }
    }
    assert(seq_membership(lists) =~= membership(ls));
}

/// One of the members of the lists before entry `k`, or of the first `i` members of entry `k`.
spec fn noted(lists: Seq<List>, k: int, i: int, f: Fact) -> bool {
    f.rel == Rel::Member && f.p == first && exists|k2: int, i2: int|
        0 <= k2 < lists.len() && 0 <= i2 < lists[k2].1@.len() && (k2 < k || (k2 == k && i2 < i))
            && lists[k2].0 == f.s && #[trigger] lists[k2].1@[i2] == f.o
}

/// Appends the members of `lists` to `out` as facts.
pub fn note_members(lists: &Vec<List>, out: &mut Vec<Fact>)
    ensures
        final(out)@.to_set() == old(out)@.to_set().union(membership(list_set(lists@))),
{
    let ghost out0 = out@;
    let mut k: usize = 0;
    while k < lists.len()
        invariant
            k <= lists.len(),
            forall|f: Fact|
                #![trigger out@.contains(f)]
                out@.contains(f) <==> out0.contains(f) || noted(lists@, k as int, 0, f),
        decreases lists.len() - k,
    {
        let head = lists[k].0;
        let mut i: usize = 0;
        while i < lists[k].1.len()
            invariant
                k < lists.len(),
                head == lists@[k as int].0,
                i <= lists@[k as int].1@.len(),
                forall|f: Fact|
                    #![trigger out@.contains(f)]
                    out@.contains(f) <==> out0.contains(f) || noted(lists@, k as int, i as int, f),
            decreases lists@[k as int].1@.len() - i,
        {
            let m = lists[k].1[i];
            let g = Fact { rel: Rel::Member, s: head, p: first, o: m };
            let ghost before = out@;
            out.push(g);
            proof {
                assert forall|f: Fact| #![trigger out@.contains(f)]
                    out@.contains(f) <==> out0.contains(f) || noted(
                        lists@,
                        k as int,
                        i + 1,
                        f,
                    ) by {
                    lemma_push_contains(before, g, f);
                    if f == g {
                        assert(lists@[k as int].1@[i as int] == f.o);
                    }
                    if noted(lists@, k as int, i + 1, f) && !noted(lists@, k as int, i as int, f) {
                        let (k2, i2) = choose|k2: int, i2: int|
                            0 <= k2 < lists@.len() && 0 <= i2 < lists@[k2].1@.len() && (k2 < k || (k2
                                == k && i2 < i + 1)) && lists@[k2].0 == f.s
                                && #[trigger] lists@[k2].1@[i2] == f.o;
                        assert(k2 == k && i2 == i);
                    }
                    if noted(lists@, k as int, i as int, f) {
                        let (k2, i2) = choose|k2: int, i2: int|
                            0 <= k2 < lists@.len() && 0 <= i2 < lists@[k2].1@.len() && (k2 < k || (k2
                                == k && i2 < i)) && lists@[k2].0 == f.s
                                && #[trigger] lists@[k2].1@[i2] == f.o;
                        assert(lists@[k2].1@[i2] == f.o);
                    }
                }
            }
            i += 1;
        }
        proof {
            assert forall|f: Fact| #![trigger out@.contains(f)]
                out@.contains(f) <==> out0.contains(f) || noted(lists@, k + 1, 0, f) by {
                let n = lists@[k as int].1@.len() as int;
                if noted(lists@, k as int, n, f) {
                    let (k2, i2) = choose|k2: int, i2: int|
                        0 <= k2 < lists@.len() && 0 <= i2 < lists@[k2].1@.len() && (k2 < k || (k2 == k
                            && i2 < n)) && lists@[k2].0 == f.s && #[trigger] lists@[k2].1@[i2]
                            == f.o;
                    assert(lists@[k2].1@[i2] == f.o);
                }
                if noted(lists@, k + 1, 0, f) {
                    let (k2, i2) = choose|k2: int, i2: int|
                        0 <= k2 < lists@.len() && 0 <= i2 < lists@[k2].1@.len() && (k2 < k + 1 || (k2
                            == k + 1 && i2 < 0)) && lists@[k2].0 == f.s
                            && #[trigger] lists@[k2].1@[i2] == f.o;
                    assert(lists@[k2].1@[i2] == f.o);
                }
            }
        }
        k += 1;
    }
    proof {
        assert forall|f: Fact| noted(lists@, lists@.len() as int, 0, f) <==> seq_membership(
            lists@,
        ).contains(f) by {
            if noted(lists@, lists@.len() as int, 0, f) {
                let (k2, i2) = choose|k2: int, i2: int|
                    0 <= k2 < lists@.len() && 0 <= i2 < lists@[k2].1@.len() && (k2 < lists@.len() || (
                    k2 == lists@.len() && i2 < 0)) && lists@[k2].0 == f.s
                        && #[trigger] lists@[k2].1@[i2] == f.o;
                assert(lists@[k2].1@[i2] == f.o);
            }
            if seq_membership(lists@).contains(f) {
                let (k2, i2) = choose|k2: int, i2: int|
                    0 <= k2 < lists@.len() && 0 <= i2 < lists@[k2].1@.len() && lists@[k2].0 == f.s
                        && #[trigger] lists@[k2].1@[i2] == f.o;
                assert(lists@[k2].1@[i2] == f.o);
            }
        }
        assert(out@.to_set() =~= out0.to_set().union(seq_membership(lists@)));
        lemma_membership(lists@);
    }
}

/// What the schema rules entail from a terminology box and its lists.
pub open spec fn owl2rl_tbox_closure(tbox: Set<Triple>) -> Set<Triple> {
    relation(
        least_model(
            schema_clauses().to_set(),
            tagged(Rel::Tbox, tbox).union(membership(lists_of(tbox))),
        ),
        Rel::Tbox,
    )
}

/// The OWL 2 RL first stage: the terminology box closed under the schema
/// rules, each triple once, and the lists that it holds.
pub fn owl2rl_tbox(tbox: &Vec<Triple>) -> (r: (Vec<Triple>, Vec<List>))
    ensures
        r.0@.no_duplicates(),
        r.0@.to_set() == owl2rl_tbox_closure(tbox@.to_set()),
        list_set(r.1@) == lists_of(tbox@.to_set()),
        each_once(r.1@),
        functional(tbox@.to_set()) && acyclic(tbox@.to_set()) ==> heads_differ(r.1@),
{
    let lists = expand_lists(tbox);
    let rules = schema_rules();
    let mut base: Vec<Fact> = Vec::new();
    tag(Rel::Tbox, tbox, &mut base);
    note_members(&lists, &mut base);
    proof {
        lemma_program_views(rules@);
        assert(base@.to_set() =~= tagged(Rel::Tbox, tbox@.to_set()).union(
            membership(lists_of(tbox@.to_set())),
        ));
    }
    let model = saturate(&rules, &base);
    let closure = project(&model, Rel::Tbox);
    (closure, lists)
}

/// The property chain rule of `p` over the properties `steps`: a walk
/// `u0 steps[0] u1 ... steps[n-1] un` gives `(u0 p un)`.
pub open spec fn chain_clause(p: u32, steps: Seq<u32>) -> Clause {
    Clause {
        body: Seq::new(
            steps.len(),
            |i: int|
                abox(Term::Var(i as usize), Term::Const(steps[i]), Term::Var((i + 1) as usize)),
        ),
        head: abox(Term::Var(0), Term::Const(p), Term::Var(steps.len() as usize)),
        guard: Guard::Always,
    }
}

/// The intersection rule of `c` over `classes`: who is of every class of
/// `classes` is of class `c`.
pub open spec fn intersection_clause(c: u32, classes: Seq<u32>) -> Clause {
    Clause {
        body: Seq::new(
            classes.len(),
            |i: int| abox(Term::Var(0), Term::Const(type_), Term::Const(classes[i])),
        ),
        head: abox(Term::Var(0), Term::Const(type_), Term::Const(c)),
        guard: Guard::Always,
    }
}

/// A list gets a rule if it has a member; a chain of n steps takes n + 1
/// variables, so n must leave room for one more.
pub open spec fn usable(members: Seq<u32>) -> bool {
    0 < members.len() < usize::MAX
}

/// The predicate that ties a subject to a list: a property chain or an intersection.
pub open spec fn list_link(chained: bool) -> u32 {
    if chained {
        propertyChainAxiom
    } else {
        intersectionOf
    }
}

/// The rule of `subject` over the list `members`.
pub open spec fn list_clause(chained: bool, subject: u32, members: Seq<u32>) -> Clause {
    if chained {
        chain_clause(subject, members)
    } else {
        intersection_clause(subject, members)
    }
}

/// The list rules for the lists of a vector.
spec fn seq_list_clauses(chained: bool, tbox: Set<Triple>, lists: Seq<List>) -> Set<Clause> {
    Set::new(
        |c: Clause|
            exists|s: u32, k: int|
                0 <= k < lists.len() && tbox.contains((s, list_link(chained), lists[k].0))
                    && usable(lists[k].1@) && c == #[trigger] list_clause(chained, s, lists[k].1@),
    )
}

/// One rule for every `(subject link head)` of the terminology box and
/// every usable list with that head.
pub open spec fn list_clauses(chained: bool, tbox: Set<Triple>, lists: Set<(u32, Seq<u32>)>) -> Set<
    Clause,
> {
    Set::new(
        |c: Clause|
            exists|s: u32, head: u32, members: Seq<u32>|
                #![trigger lists.contains((head, members)), list_clause(chained, s, members)]
                tbox.contains((s, list_link(chained), head)) && lists.contains((head, members))
                    && usable(members) && c == list_clause(chained, s, members),
    )
}

/// The list rules for the lists of a vector are those for its set of lists.
proof fn lemma_list_clauses(chained: bool, tbox: Set<Triple>, lists: Seq<List>)
    ensures
        seq_list_clauses(chained, tbox, lists) == list_clauses(chained, tbox, list_set(lists)),
{
    let ls = list_set(lists);
    assert forall|c: Clause|
        seq_list_clauses(chained, tbox, lists).contains(c) <==> list_clauses(
            chained,
            tbox,
            ls,
        ).contains(c) by {
        if seq_list_clauses(chained, tbox, lists).contains(c) {
            let (s, k) = choose|s: u32, k: int|
                0 <= k < lists.len() && tbox.contains((s, list_link(chained), lists[k].0))
                    && usable(lists[k].1@) && c == #[trigger] list_clause(chained, s, lists[k].1@);
            assert(listed(lists, lists[k].0, lists[k].1@));
            assert(ls.contains((lists[k].0, lists[k].1@)));
        }
        if list_clauses(chained, tbox, ls).contains(c) {
            let (s, head, members) = choose|s: u32, head: u32, members: Seq<u32>|
                #![trigger ls.contains((head, members)), list_clause(chained, s, members)]
                tbox.contains((s, list_link(chained), head)) && ls.contains((head, members))
                    && usable(members) && c == list_clause(chained, s, members);
            assert(listed(lists, head, members));
            let k = choose|k: int|
                0 <= k < lists.len() && (#[trigger] lists[k]).0 == head && lists[k].1@ == members;
            assert(c == list_clause(chained, s, lists[k].1@));
        }
    }
    assert(seq_list_clauses(chained, tbox, lists) =~= list_clauses(chained, tbox, ls));
}

fn chain_rule(p: u32, steps: &Vec<u32>) -> (r: Rule)
    requires
        usable(steps@),
    ensures
        r@ == chain_clause(p, steps@),
        r.wf(),
{
    let n = steps.len();
    let mut body: Vec<crate::inference::rule::Atom> = Vec::new();
    let mut i: usize = 0;
    while i < n
        invariant
            i <= n,
            n == steps@.len(),
            n < usize::MAX,
            body@.len() == i,
            forall|j: int|
                0 <= j < i ==> #[trigger] body@[j] == abox(
                    Term::Var(j as usize),
                    Term::Const(steps@[j]),
                    Term::Var((j + 1) as usize),
                ),
        decreases n - i,
    {
        body.push(abox(Term::Var(i), Term::Const(steps[i]), Term::Var(i + 1)));
        i += 1;
    }
    let r = Rule {
        body,
        head: abox(Term::Var(0), Term::Const(p), Term::Var(n)),
        guard: Guard::Always,
        vars: n + 1,
    };
    proof {
        assert(r@.body =~= chain_clause(p, steps@).body);
        assert forall|j: int| 0 <= j < r.body@.len() implies atom_within(
            #[trigger] r.body@[j],
            r.vars,
        ) by {}
        assert forall|v: usize|
            mentions(r.head, v) || guard_mentions(r.guard, v) implies #[trigger] covered(
            r.body@,
            v,
        ) by {
            if v == 0 {
                assert(mentions(r.body@[0], v));
            } else {
                assert(mentions(r.body@[n - 1], v));
            }
        }
    }
    r
}

fn intersection_rule(c: u32, classes: &Vec<u32>) -> (r: Rule)
    requires
        usable(classes@),
    ensures
        r@ == intersection_clause(c, classes@),
        r.wf(),
{
    let n = classes.len();
    let mut body: Vec<crate::inference::rule::Atom> = Vec::new();
    let mut i: usize = 0;
    while i < n
        invariant
            i <= n,
            n == classes@.len(),
            body@.len() == i,
            forall|j: int|
                0 <= j < i ==> #[trigger] body@[j] == abox(
                    Term::Var(0),
                    Term::Const(type_),
                    Term::Const(classes@[j]),
                ),
        decreases n - i,
    {
        body.push(abox(Term::Var(0), Term::Const(type_), Term::Const(classes[i])));
        i += 1;
    }
    let r = Rule {
        body,
        head: abox(Term::Var(0), Term::Const(type_), Term::Const(c)),
        guard: Guard::Always,
        vars: 1,
    };
    proof {
        assert(r@.body =~= intersection_clause(c, classes@).body);
        assert forall|j: int| 0 <= j < r.body@.len() implies atom_within(
            #[trigger] r.body@[j],
            r.vars,
        ) by {}
        assert forall|v: usize|
            mentions(r.head, v) || guard_mentions(r.guard, v) implies #[trigger] covered(
            r.body@,
            v,
        ) by {
            assert(mentions(r.body@[0], v));
        }
    }
    r
}

/// The clauses of a sequence of rules with one more rule.
pub proof fn lemma_program_push(rules: Seq<Rule>, r: Rule)
    ensures
        program(rules.push(r)) == program(rules).insert(r@),
{
    let more = rules.push(r);
    assert forall|c: Clause| program(more).contains(c) <==> program(rules).insert(r@).contains(
        c,
    ) by {
        if program(more).contains(c) {
            let k = choose|k: int| 0 <= k < more.len() && (#[trigger] more[k])@ == c;
            if k < rules.len() {
                assert(rules[k]@ == c);
            }
        }
        if program(rules).contains(c) {
            let k = choose|k: int| 0 <= k < rules.len() && (#[trigger] rules[k])@ == c;
            assert(more[k]@ == c);
        }
        if c == r@ {
            assert(more[rules.len() as int]@ == c);
        }
    }
    assert(program(more) =~= program(rules).insert(r@));
}

/// `c` is the rule of one of the pairs before `(i, k)`, in the order of the two loops.
spec fn made(chained: bool, tbox: Seq<Triple>, lists: Seq<List>, i: int, k: int, c: Clause) -> bool {
    exists|i2: int, k2: int|
        #![trigger tbox[i2], lists[k2]]
        0 <= i2 < tbox.len() && 0 <= k2 < lists.len() && (i2 < i || (i2 == i && k2 < k))
            && tbox[i2].1 == list_link(chained) && tbox[i2].2 == lists[k2].0 && usable(
            lists[k2].1@,
        ) && c == list_clause(chained, tbox[i2].0, lists[k2].1@)
}

proof fn lemma_made_all(chained: bool, tbox: Seq<Triple>, lists: Seq<List>, c: Clause)
    ensures
        made(chained, tbox, lists, tbox.len() as int, 0, c) <==> seq_list_clauses(
            chained,
            tbox.to_set(),
            lists,
        ).contains(c),
{
    if made(chained, tbox, lists, tbox.len() as int, 0, c) {
        let (i2, k2) = choose|i2: int, k2: int|
            #![trigger tbox[i2], lists[k2]]
            0 <= i2 < tbox.len() && 0 <= k2 < lists.len() && (i2 < tbox.len() || (i2 == tbox.len()
                && k2 < 0)) && tbox[i2].1 == list_link(chained) && tbox[i2].2 == lists[k2].0
                && usable(lists[k2].1@) && c == list_clause(chained, tbox[i2].0, lists[k2].1@);
        let t = tbox[i2];
        assert(tbox.contains(t));
        assert(t == (t.0, list_link(chained), lists[k2].0));
        assert(c == list_clause(chained, t.0, lists[k2].1@));
    }
    if seq_list_clauses(chained, tbox.to_set(), lists).contains(c) {
        let (s, k) = choose|s: u32, k: int|
            0 <= k < lists.len() && tbox.to_set().contains((s, list_link(chained), lists[k].0))
                && usable(lists[k].1@) && c == #[trigger] list_clause(chained, s, lists[k].1@);
        let t = (s, list_link(chained), lists[k].0);
        assert(tbox.contains(t));
        let i = choose|i: int| 0 <= i < tbox.len() && tbox[i] == t;
        assert(tbox[i].1 == list_link(chained) && tbox[i].2 == lists[k].0);
    }
}

proof fn lemma_made_step(
    chained: bool,
    tbox: Seq<Triple>,
    lists: Seq<List>,
    i: int,
    k: int,
    c: Clause,
)
    requires
        0 <= i < tbox.len(),
        0 <= k < lists.len(),
    ensures
        made(chained, tbox, lists, i, k + 1, c) <==> made(chained, tbox, lists, i, k, c) || (
        tbox[i].1 == list_link(chained) && tbox[i].2 == lists[k].0 && usable(lists[k].1@) && c
            == list_clause(chained, tbox[i].0, lists[k].1@)),
{
    if made(chained, tbox, lists, i, k + 1, c) {
        let (i2, k2) = choose|i2: int, k2: int|
            #![trigger tbox[i2], lists[k2]]
            0 <= i2 < tbox.len() && 0 <= k2 < lists.len() && (i2 < i || (i2 == i && k2 < k + 1))
                && tbox[i2].1 == list_link(chained) && tbox[i2].2 == lists[k2].0 && usable(
                lists[k2].1@,
            ) && c == list_clause(chained, tbox[i2].0, lists[k2].1@);
        if i2 == i && k2 == k {
        } else {
            assert(tbox[i2].1 == list_link(chained) && tbox[i2].2 == lists[k2].0);
            assert(made(chained, tbox, lists, i, k, c));
        }
    }
    if made(chained, tbox, lists, i, k, c) {
        let (i2, k2) = choose|i2: int, k2: int|
            #![trigger tbox[i2], lists[k2]]
            0 <= i2 < tbox.len() && 0 <= k2 < lists.len() && (i2 < i || (i2 == i && k2 < k))
                && tbox[i2].1 == list_link(chained) && tbox[i2].2 == lists[k2].0 && usable(
                lists[k2].1@,
            ) && c == list_clause(chained, tbox[i2].0, lists[k2].1@);
        assert(tbox[i2].1 == list_link(chained) && tbox[i2].2 == lists[k2].0);
    }
    if tbox[i].1 == list_link(chained) && tbox[i].2 == lists[k].0 && usable(lists[k].1@) && c
        == list_clause(chained, tbox[i].0, lists[k].1@) {
        assert(tbox[i].1 == list_link(chained) && tbox[i].2 == lists[k].0);
    }
}

proof fn lemma_made_row(chained: bool, tbox: Seq<Triple>, lists: Seq<List>, i: int, c: Clause)
    requires
        0 <= i < tbox.len(),
    ensures
        made(chained, tbox, lists, i, lists.len() as int, c) <==> made(
            chained,
            tbox,
            lists,
            i + 1,
            0,
            c,
        ),
{
    if made(chained, tbox, lists, i, lists.len() as int, c) {
        let (i2, k2) = choose|i2: int, k2: int|
            #![trigger tbox[i2], lists[k2]]
            0 <= i2 < tbox.len() && 0 <= k2 < lists.len() && (i2 < i || (i2 == i && k2
                < lists.len())) && tbox[i2].1 == list_link(chained) && tbox[i2].2 == lists[k2].0
                && usable(lists[k2].1@) && c == list_clause(chained, tbox[i2].0, lists[k2].1@);
        assert(tbox[i2].1 == list_link(chained) && tbox[i2].2 == lists[k2].0);
    }
    if made(chained, tbox, lists, i + 1, 0, c) {
        let (i2, k2) = choose|i2: int, k2: int|
            #![trigger tbox[i2], lists[k2]]
            0 <= i2 < tbox.len() && 0 <= k2 < lists.len() && (i2 < i + 1 || (i2 == i + 1 && k2 < 0))
                && tbox[i2].1 == list_link(chained) && tbox[i2].2 == lists[k2].0 && usable(
                lists[k2].1@,
            ) && c == list_clause(chained, tbox[i2].0, lists[k2].1@);
        assert(tbox[i2].1 == list_link(chained) && tbox[i2].2 == lists[k2].0);
    }
}

/// Appends to `rules` the rule of every `(subject link head)` of the
/// terminology box over every usable list with that head.
pub fn list_rules(chained: bool, tbox: &Vec<Triple>, lists: &Vec<List>, rules: &mut Vec<Rule>)
    requires
        all_wf(old(rules)@),
    ensures
        all_wf(final(rules)@),
        program(final(rules)@) == program(old(rules)@).union(
            list_clauses(chained, tbox@.to_set(), list_set(lists@)),
        ),
{
    let ghost rules0 = rules@;
    let link = if chained {
        propertyChainAxiom
    } else {
        intersectionOf
    };
    let mut i: usize = 0;
    while i < tbox.len()
        invariant
            i <= tbox.len(),
            link == list_link(chained),
            all_wf(rules@),
            forall|c: Clause|
                #![trigger program(rules@).contains(c)]
                program(rules@).contains(c) <==> program(rules0).contains(c) || made(
                    chained,
                    tbox@,
                    lists@,
                    i as int,
                    0,
                    c,
                ),
        decreases tbox.len() - i,
    {
        let t = tbox[i];
        let mut k: usize = 0;
        while k < lists.len()
            invariant
                i < tbox.len(),
                t == tbox@[i as int],
                k <= lists.len(),
                link == list_link(chained),
                all_wf(rules@),
                forall|c: Clause|
                    #![trigger program(rules@).contains(c)]
                    program(rules@).contains(c) <==> program(rules0).contains(c) || made(
                        chained,
                        tbox@,
                        lists@,
                        i as int,
                        k as int,
                        c,
                    ),
            decreases lists.len() - k,
        {
            let ghost before = rules@;
            let n = lists[k].1.len();
            if t.1 == link && t.2 == lists[k].0 && 0 < n && n < usize::MAX {
                let r = if chained {
                    chain_rule(t.0, &lists[k].1)
                } else {
                    intersection_rule(t.0, &lists[k].1)
                };
                rules.push(r);
                proof {
                    lemma_program_push(before, r);
                    assert forall|j: int| 0 <= j < rules@.len() implies (#[trigger] rules@[j]).wf() by {
                        if j < before.len() {
                            assert(rules@[j] == before[j]);
                        }
                    }
                    assert forall|c: Clause| #![trigger program(rules@).contains(c)]
                        program(rules@).contains(c) <==> program(rules0).contains(c) || made(
                            chained,
                            tbox@,
                            lists@,
                            i as int,
                            k + 1,
                            c,
                        ) by {
                        lemma_made_step(chained, tbox@, lists@, i as int, k as int, c);
                    }
                }
            } else {
                proof {
                    assert forall|c: Clause| #![trigger program(rules@).contains(c)]
                        program(rules@).contains(c) <==> program(rules0).contains(c) || made(
                            chained,
                            tbox@,
                            lists@,
                            i as int,
                            k + 1,
                            c,
                        ) by {
                        lemma_made_step(chained, tbox@, lists@, i as int, k as int, c);
                    }
                }
            }
            k += 1;
        }
        proof {
            assert forall|c: Clause| #![trigger program(rules@).contains(c)]
                program(rules@).contains(c) <==> program(rules0).contains(c) || made(
                    chained,
                    tbox@,
                    lists@,
                    i + 1,
                    0,
                    c,
                ) by {
                lemma_made_row(chained, tbox@, lists@, i as int, c);
            }
        }
        i += 1;
    }
    proof {
        assert forall|c: Clause|
            program(rules@).contains(c) <==> program(rules0).union(
                seq_list_clauses(chained, tbox@.to_set(), lists@),
            ).contains(c) by {
            lemma_made_all(chained, tbox@, lists@, c);
        }
        assert(program(rules@) =~= program(rules0).union(
            seq_list_clauses(chained, tbox@.to_set(), lists@),
        ));
        lemma_list_clauses(chained, tbox@.to_set(), lists@);
    }
}

/// The two triples that hold of every assertion box: `Thing` and `Nothing` are classes.
pub open spec fn bootstrap() -> Set<Triple> {
    set![(Thing, type_, Class), (Nothing, type_, Class)]
}

/// The OWL 2 RL instance program for a terminology box and its lists: the
/// fixed rules, one chain rule for every property chain and one
/// intersection rule for every intersection.
pub open spec fn owl2rl_abox_program(tbox: Set<Triple>, lists: Set<(u32, Seq<u32>)>) -> Set<
    Clause,
> {
    instance_clauses().to_set().union(list_clauses(true, tbox, lists)).union(
        list_clauses(false, tbox, lists),
    )
}

/// The facts the OWL 2 RL second stage starts from.
pub open spec fn owl2rl_abox_base(
    tbox: Set<Triple>,
    lists: Set<(u32, Seq<u32>)>,
    abox: Set<Triple>,
) -> Set<Fact> {
    tagged(Rel::Tbox, tbox).union(tagged(Rel::Abox, abox.union(bootstrap()))).union(
        membership(lists),
    )
}

/// What OWL 2 RL entails from an assertion box under a terminology box and its lists.
pub open spec fn owl2rl_entailment(
    tbox: Set<Triple>,
    lists: Set<(u32, Seq<u32>)>,
    abox: Set<Triple>,
) -> Set<Triple> {
    relation(
        least_model(owl2rl_abox_program(tbox, lists), owl2rl_abox_base(tbox, lists, abox)),
        Rel::Abox,
    )
}

/// The OWL 2 RL second stage: the assertion box with the two bootstrap
/// triples and everything the instance rules entail, each triple once.
pub fn owl2rl_abox(tbox: &Vec<Triple>, lists: &Vec<List>, abox: &Vec<Triple>) -> (r: Vec<Triple>)
    ensures
        r@.no_duplicates(),
        r@.to_set() == owl2rl_entailment(tbox@.to_set(), list_set(lists@), abox@.to_set()),
{
    let mut rules = instance_rules();
    proof {
        lemma_program_views(rules@);
    }
    list_rules(true, tbox, lists, &mut rules);
    list_rules(false, tbox, lists, &mut rules);
    let mut base: Vec<Fact> = Vec::new();
    tag(Rel::Tbox, tbox, &mut base);
    tag(Rel::Abox, abox, &mut base);
    let mut fixed: Vec<Triple> = Vec::new();
    fixed.push((Thing, type_, Class));
    fixed.push((Nothing, type_, Class));
    tag(Rel::Abox, &fixed, &mut base);
    note_members(lists, &mut base);
    proof {
        assert(fixed@.to_set() =~= bootstrap()) by {
            assert(fixed@[0] == (Thing, type_, Class));
            assert(fixed@[1] == (Nothing, type_, Class));
        }
        assert(base@.to_set() =~= owl2rl_abox_base(
            tbox@.to_set(),
            list_set(lists@),
            abox@.to_set(),
        ));
    }
    let model = saturate(&rules, &base);
    project(&model, Rel::Abox)
}

/// What OWL 2 RL entails includes the assertion box and the two bootstrap triples.
pub proof fn lemma_owl2rl_includes(
    tbox: Set<Triple>,
    lists: Set<(u32, Seq<u32>)>,
    abox: Set<Triple>,
)
    ensures
        abox.subset_of(owl2rl_entailment(tbox, lists, abox)),
        bootstrap().subset_of(owl2rl_entailment(tbox, lists, abox)),
{
    let rules = owl2rl_abox_program(tbox, lists);
    let base = owl2rl_abox_base(tbox, lists, abox);
    lemma_least_model_includes_base(rules, base);
    assert forall|t: Triple| abox.contains(t) || bootstrap().contains(t) implies owl2rl_entailment(
        tbox,
        lists,
        abox,
    ).contains(t) by {
        assert(base.contains(fact(Rel::Abox, t)));
    }
}

/// Property chains: where `(p propertyChainAxiom head)` holds and the list
/// at `head` is `steps`, every walk `walk[0] steps[0] walk[1] ...
/// steps[n-1] walk[n]` through what is entailed gives `(walk[0] p walk[n])`.
pub proof fn lemma_property_chain(
    tbox: Set<Triple>,
    lists: Set<(u32, Seq<u32>)>,
    abox: Set<Triple>,
    p: u32,
    head: u32,
    steps: Seq<u32>,
    walk: Seq<u32>,
)
    requires
        tbox.contains((p, propertyChainAxiom, head)),
        lists.contains((head, steps)),
        usable(steps),
        walk.len() == steps.len() + 1,
        forall|i: int|
            0 <= i < steps.len() ==> owl2rl_entailment(tbox, lists, abox).contains(
                (walk[i], #[trigger] steps[i], walk[i + 1]),
            ),
    ensures
        owl2rl_entailment(tbox, lists, abox).contains((walk[0], p, walk[steps.len() as int])),
{
    let rules = owl2rl_abox_program(tbox, lists);
    let base = owl2rl_abox_base(tbox, lists, abox);
    let least = least_model(rules, base);
    let c = chain_clause(p, steps);
    assert(c == list_clause(true, p, steps));
    assert(list_clauses(true, tbox, lists).contains(c));
    assert forall|i: int| 0 <= i < c.body.len() implies least.contains(
        #[trigger] ground(c.body[i], walk),
    ) by {
        assert(owl2rl_entailment(tbox, lists, abox).contains((walk[i], steps[i], walk[i + 1])));
        assert(ground(c.body[i], walk) == fact(Rel::Abox, (walk[i], steps[i], walk[i + 1])));
    }
    lemma_rule_applies(rules, base, c, walk);
    assert(ground(c.head, walk) == fact(Rel::Abox, (walk[0], p, walk[steps.len() as int])));
}

/// Intersections: where `(c intersectionOf head)` holds and the list at
/// `head` is `classes`, who is entailed to be of every class of `classes`
/// is entailed to be of class `c`.
pub proof fn lemma_intersection(
    tbox: Set<Triple>,
    lists: Set<(u32, Seq<u32>)>,
    abox: Set<Triple>,
    c: u32,
    head: u32,
    classes: Seq<u32>,
    x: u32,
)
    requires
        tbox.contains((c, intersectionOf, head)),
        lists.contains((head, classes)),
        usable(classes),
        forall|i: int|
            0 <= i < classes.len() ==> owl2rl_entailment(tbox, lists, abox).contains(
                (x, type_, #[trigger] classes[i]),
            ),
    ensures
        owl2rl_entailment(tbox, lists, abox).contains((x, type_, c)),
{
    let rules = owl2rl_abox_program(tbox, lists);
    let base = owl2rl_abox_base(tbox, lists, abox);
    let least = least_model(rules, base);
    let rule = intersection_clause(c, classes);
    let b = seq![x];
    assert(rule == list_clause(false, c, classes));
    assert(list_clauses(false, tbox, lists).contains(rule));
    assert forall|i: int| 0 <= i < rule.body.len() implies least.contains(
        #[trigger] ground(rule.body[i], b),
    ) by {
        assert(owl2rl_entailment(tbox, lists, abox).contains((x, type_, classes[i])));
        assert(ground(rule.body[i], b) == fact(Rel::Abox, (x, type_, classes[i])));
    }
    lemma_rule_applies(rules, base, rule, b);
    assert(ground(rule.head, b) == fact(Rel::Abox, (x, type_, c)));
}

} // verus!
