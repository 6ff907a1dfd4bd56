//! Orders custom commands into waves: each wave holds the commands whose
//! dependencies all ran in earlier waves.
use vstd::prelude::*;
use crate::custom_command::CustomCommand;
use crate::text::argv_view;
use crate::text::str_eq;

verus! {

/// Every dependency of `c` is among `done`.
pub open spec fn is_ready(c: CustomCommand, done: Seq<Seq<char>>) -> bool {
    forall|i: int| 0 <= i < c.depends_on@.len() ==> done.contains(#[trigger] c.depends_on@[i]@)
}

/// The commands that are ready, and those that are not, each in their order.
pub open spec fn split_ready(cs: Seq<CustomCommand>, done: Seq<Seq<char>>) -> (
    Seq<CustomCommand>,
    Seq<CustomCommand>,
)
    decreases cs.len(),
{
    if cs.len() == 0 {
        (Seq::empty(), Seq::empty())
    } else {
        let (a, b) = split_ready(cs.drop_last(), done);
        if is_ready(cs.last(), done) {
            (a.push(cs.last()), b)
        } else {
            (a, b.push(cs.last()))
        }
    }
}

pub open spec fn names_of(cs: Seq<CustomCommand>) -> Seq<Seq<char>> {
    cs.map_values(|c: CustomCommand| c.name@)
}

pub open spec fn singletons(cs: Seq<CustomCommand>) -> Seq<Seq<CustomCommand>> {
    cs.map_values(|c: CustomCommand| seq![c])
}

/// The waves for `cs` once the commands named in `done` have run: the ready
/// commands form the next wave; where none is ready, each remaining command
/// becomes a wave of its own, in order.
pub open spec fn waves(cs: Seq<CustomCommand>, done: Seq<Seq<char>>) -> Seq<Seq<CustomCommand>>
    decreases cs.len(),
    via waves_decreases
{
    if cs.len() == 0 {
        Seq::empty()
    } else {
        let (now, later) = split_ready(cs, done);
        if now.len() == 0 {
            singletons(later)
        } else {
            seq![now] + waves(later, done + names_of(now))
        }
    }
}

proof fn lemma_split_len(cs: Seq<CustomCommand>, done: Seq<Seq<char>>)
    ensures
        split_ready(cs, done).0.len() + split_ready(cs, done).1.len() == cs.len(),
    decreases cs.len(),
{
    if cs.len() > 0 {
        lemma_split_len(cs.drop_last(), done);
    }
}

#[via_fn]
proof fn waves_decreases(cs: Seq<CustomCommand>, done: Seq<Seq<char>>) {
    lemma_split_len(cs, done);
}

/// The commands behind a list of references.
pub open spec fn deref_all(s: Seq<&CustomCommand>) -> Seq<CustomCommand> {
    s.map_values(|c: &CustomCommand| *c)
}

pub open spec fn waves_view(g: Seq<Vec<&CustomCommand>>) -> Seq<Seq<CustomCommand>> {
    g.map_values(|w: Vec<&CustomCommand>| deref_all(w@))
}

/// The names of all commands of a list of waves, in order.
pub open spec fn flat_names(ws: Seq<Seq<CustomCommand>>) -> Seq<Seq<char>>
    decreases ws.len(),
{
    if ws.len() == 0 {
        Seq::empty()
    } else {
        flat_names(ws.drop_last()) + names_of(ws.last())
    }
}

/// Every command of wave `k` has its dependencies among `done` and the
/// commands of the waves before `k`.
pub open spec fn wave_satisfied(ws: Seq<Seq<CustomCommand>>, done: Seq<Seq<char>>, k: int) -> bool {
    forall|i: int|
        0 <= i < ws[k].len() ==> is_ready(#[trigger] ws[k][i], done + flat_names(ws.subrange(0, k)))
}

proof fn lemma_split_ready_all(cs: Seq<CustomCommand>, done: Seq<Seq<char>>)
    ensures
        forall|i: int|
            0 <= i < split_ready(cs, done).0.len() ==> is_ready(
                #[trigger] split_ready(cs, done).0[i],
                done,
            ),
    decreases cs.len(),
{
    if cs.len() > 0 {
        lemma_split_ready_all(cs.drop_last(), done);
        let a = split_ready(cs.drop_last(), done).0;
        let r = split_ready(cs, done).0;
        assert forall|i: int| 0 <= i < r.len() implies is_ready(#[trigger] r[i], done) by {
            if i < a.len() {
                assert(r[i] == a[i]);
            }
        }
    }
}

proof fn lemma_flat_names_cons(w: Seq<CustomCommand>, ws: Seq<Seq<CustomCommand>>)
    ensures
        flat_names(seq![w] + ws) == names_of(w) + flat_names(ws),
    decreases ws.len(),
{
    if ws.len() == 0 {
        assert(seq![w] + ws =~= seq![w]);
        assert(seq![w].drop_last() =~= Seq::<Seq<CustomCommand>>::empty());
        assert(flat_names(seq![w]) == flat_names(Seq::<Seq<CustomCommand>>::empty()) + names_of(w));
        assert(Seq::<Seq<char>>::empty() + names_of(w) =~= names_of(w));
        assert(names_of(w) + Seq::<Seq<char>>::empty() =~= names_of(w));
    } else {
        assert((seq![w] + ws).drop_last() =~= seq![w] + ws.drop_last());
        assert((seq![w] + ws).last() == ws.last());
        lemma_flat_names_cons(w, ws.drop_last());
        assert(names_of(w) + flat_names(ws.drop_last()) + names_of(ws.last()) =~= names_of(w) + (
        flat_names(ws.drop_last()) + names_of(ws.last())));
    }
}

/// `a` is `b` with some elements left out, the rest in their order.
pub open spec fn is_subseq(a: Seq<CustomCommand>, b: Seq<CustomCommand>) -> bool
    decreases b.len(),
{
    if a.len() == 0 {
        true
    } else if b.len() == 0 {
        false
    } else if a.last() == b.last() {
        is_subseq(a.drop_last(), b.drop_last())
    } else {
        is_subseq(a, b.drop_last())
    }
}

proof fn lemma_subseq_drop(a: Seq<CustomCommand>, b: Seq<CustomCommand>)
    requires
        a.len() > 0,
        is_subseq(a, b),
    ensures
        is_subseq(a.drop_last(), b),
    decreases b.len(), 1int,
{
    if a.last() == b.last() {
        lemma_subseq_extend(a.drop_last(), b);
    } else {
        lemma_subseq_drop(a, b.drop_last());
        lemma_subseq_extend(a.drop_last(), b);
    }
}

proof fn lemma_subseq_extend(x: Seq<CustomCommand>, b: Seq<CustomCommand>)
    requires
        b.len() > 0,
        is_subseq(x, b.drop_last()),
    ensures
        is_subseq(x, b),
    decreases b.len(), 0int,
{
    if x.len() > 0 && x.last() == b.last() {
        lemma_subseq_drop(x, b.drop_last());
    }
}

proof fn lemma_subseq_trans(a: Seq<CustomCommand>, b: Seq<CustomCommand>, c: Seq<CustomCommand>)
    requires
        is_subseq(a, b),
        is_subseq(b, c),
    ensures
        is_subseq(a, c),
    decreases c.len(),
{
    if a.len() == 0 {
    } else if c.len() == 0 {
    } else if b.last() == c.last() {
        if a.last() == b.last() {
            lemma_subseq_trans(a.drop_last(), b.drop_last(), c.drop_last());
        } else {
            lemma_subseq_trans(a, b.drop_last(), c.drop_last());
        }
    } else {
        lemma_subseq_trans(a, b, c.drop_last());
        lemma_subseq_extend(a, c);
    }
}

proof fn lemma_subseq_refl(a: Seq<CustomCommand>)
    ensures
        is_subseq(a, a),
    decreases a.len(),
{
    if a.len() > 0 {
        lemma_subseq_refl(a.drop_last());
    }
}

proof fn lemma_split_later_subseq(cs: Seq<CustomCommand>, done: Seq<Seq<char>>)
    ensures
        is_subseq(split_ready(cs, done).1, cs),
    decreases cs.len(),
{
    if cs.len() > 0 {
        let c2 = cs.drop_last();
        lemma_split_later_subseq(c2, done);
        let l2 = split_ready(c2, done).1;
        if is_ready(cs.last(), done) {
            lemma_subseq_extend(l2, cs);
        } else {
            assert(l2.push(cs.last()).drop_last() =~= l2);
        }
    }
}

proof fn lemma_split_none_ready(cs: Seq<CustomCommand>, done: Seq<Seq<char>>)
    requires
        split_ready(cs, done).0.len() == 0,
    ensures
        split_ready(cs, done).1 == cs,
        forall|i: int| 0 <= i < cs.len() ==> !is_ready(#[trigger] cs[i], done),
    decreases cs.len(),
{
    if cs.len() > 0 {
        let c2 = cs.drop_last();
        lemma_split_none_ready(c2, done);
        assert(c2.push(cs.last()) =~= cs);
        assert forall|i: int| 0 <= i < cs.len() implies !is_ready(#[trigger] cs[i], done) by {
            if i < c2.len() {
                assert(cs[i] == c2[i]);
            }
        }
    }
}

/// The shape of the waves of `cs`: the first `m` waves have their
/// dependencies met by `done` and the waves before them; the rest are the
/// commands of `stuck`, one per wave, in the order of `cs`, and none of them
/// has its dependencies met by `done` and the first `m` waves.
pub open spec fn waves_shape(
    ws: Seq<Seq<CustomCommand>>,
    cs: Seq<CustomCommand>,
    done: Seq<Seq<char>>,
    m: int,
    stuck: Seq<CustomCommand>,
) -> bool {
    &&& 0 <= m <= ws.len()
    &&& ws == ws.subrange(0, m) + singletons(stuck)
    &&& forall|k: int| 0 <= k < m ==> wave_satisfied(ws, done, k)
    &&& forall|i: int|
        0 <= i < stuck.len() ==> !is_ready(#[trigger] stuck[i], done + flat_names(ws.subrange(0, m)))
    &&& is_subseq(stuck, cs)
}

/// The waves come in two parts: first waves whose commands all have their
/// dependencies met by `done` and the earlier waves; then, where the rest
/// cannot be ordered, exactly the commands never ready, one per wave, in
/// their given order.
pub proof fn lemma_waves_respect_dependencies(cs: Seq<CustomCommand>, done: Seq<Seq<char>>)
    ensures
        exists|m: int, stuck: Seq<CustomCommand>| #[trigger] waves_shape(waves(cs, done), cs, done, m, stuck),
    decreases cs.len(),
{
    let ws = waves(cs, done);
    if cs.len() == 0 {
        assert(ws.subrange(0, 0) + singletons(Seq::empty()) =~= ws);
        assert(waves_shape(ws, cs, done, 0, Seq::empty()));
    } else {
        let (now, later) = split_ready(cs, done);
        lemma_split_len(cs, done);
        if now.len() == 0 {
            lemma_split_none_ready(cs, done);
            lemma_subseq_refl(cs);
            assert(ws.subrange(0, 0) =~= Seq::<Seq<CustomCommand>>::empty());
            assert(ws.subrange(0, 0) + singletons(cs) =~= ws);
            assert(done + flat_names(ws.subrange(0, 0)) =~= done);
            assert(waves_shape(ws, cs, done, 0, cs));
        } else {
            let done2 = done + names_of(now);
            let rest = waves(later, done2);
            lemma_waves_respect_dependencies(later, done2);
            let (m2, stuck) = choose|m2: int, stuck: Seq<CustomCommand>|
                #[trigger] waves_shape(rest, later, done2, m2, stuck);
            assert(ws == seq![now] + rest);
            lemma_split_ready_all(cs, done);
            lemma_split_later_subseq(cs, done);
            lemma_subseq_trans(stuck, later, cs);
            assert forall|k: int| 0 <= k < m2 + 1 implies wave_satisfied(ws, done, k) by {
                if k == 0 {
                    assert(ws.subrange(0, 0) =~= Seq::<Seq<CustomCommand>>::empty());
                    assert(done + flat_names(ws.subrange(0, 0)) =~= done);
                } else {
                    assert(wave_satisfied(rest, done2, k - 1));
                    assert(ws.subrange(0, k) =~= seq![now] + rest.subrange(0, k - 1));
                    lemma_flat_names_cons(now, rest.subrange(0, k - 1));
                    assert(done + flat_names(ws.subrange(0, k)) =~= done2 + flat_names(
                        rest.subrange(0, k - 1),
                    ));
                    assert forall|i: int| 0 <= i < ws[k].len() implies is_ready(
                        #[trigger] ws[k][i],
                        done + flat_names(ws.subrange(0, k)),
                    ) by {
                        assert(ws[k] == rest[k - 1]);
                    }
                }
            }
            let m = m2 + 1;
            assert(ws.subrange(0, m) =~= seq![now] + rest.subrange(0, m2));
            lemma_flat_names_cons(now, rest.subrange(0, m2));
            assert(done + flat_names(ws.subrange(0, m)) =~= done2 + flat_names(rest.subrange(0, m2)));
            assert(ws =~= ws.subrange(0, m) + singletons(stuck)) by {
                assert(rest =~= rest.subrange(0, m2) + singletons(stuck));
            }
            assert(waves_shape(ws, cs, done, m, stuck));
        }
    }
}

/// Whether the command asks to run in parallel with its wave.
pub fn is_custom_command_parallel(command: &CustomCommand) -> (r: bool)
    ensures
        r == command.parallel,
{
    command.parallel
}

/// Whether a wave may run in parallel: every command in it asks to.
pub fn is_parallel_wave(wave: &[&CustomCommand]) -> (r: bool)
    ensures
        r == forall|i: int| 0 <= i < wave@.len() ==> (#[trigger] wave@[i]).parallel,
{
    let mut i: usize = 0;
    while i < wave.len()
        invariant
            i <= wave@.len(),
            forall|j: int| 0 <= j < i ==> (#[trigger] wave@[j]).parallel,
        decreases wave.len() - i,
    {
        if !wave[i].parallel {
            return false;
        }
        i = i + 1;
    }
    true
}

fn names_contain(names: &Vec<String>, name: &str) -> (r: bool)
    ensures
        r == argv_view(names@).contains(name@),
{
    let mut i: usize = 0;
    while i < names.len()
        invariant
            i <= names@.len(),
            forall|j: int| 0 <= j < i ==> names@[j]@ != name@,
        decreases names.len() - i,
    {
        if str_eq(names[i].as_str(), name) {
            assert(argv_view(names@)[i as int] == name@);
            return true;
        }
        i = i + 1;
    }
    false
}

fn ready_exec(c: &CustomCommand, done: &Vec<String>) -> (r: bool)
    ensures
        r == is_ready(*c, argv_view(done@)),
{
    let mut i: usize = 0;
    while i < c.depends_on.len()
        invariant
            i <= c.depends_on@.len(),
            forall|j: int|
                0 <= j < i ==> argv_view(done@).contains(#[trigger] c.depends_on@[j]@),
        decreases c.depends_on.len() - i,
    {
        if !names_contain(done, c.depends_on[i].as_str()) {
            return false;
        }
        i = i + 1;
    }
    true
}

/// Groups `commands` into waves. While commands remain, those whose
/// dependencies all ran in earlier waves form the next wave; if none does
/// (a cycle, or a dependency that no command provides), each remaining
/// command becomes a wave of its own, in the given order.
pub fn resolve_command_dependencies(commands: &[CustomCommand]) -> (r: Vec<Vec<&CustomCommand>>)
    ensures
        waves_view(r@) == waves(commands@, Seq::empty()),
{
    let mut groups: Vec<Vec<&CustomCommand>> = Vec::new();
    let mut executed: Vec<String> = Vec::new();
    let mut remaining: Vec<&CustomCommand> = Vec::new();
    let mut k: usize = 0;
    while k < commands.len()
        invariant
            k <= commands@.len(),
            deref_all(remaining@) == commands@.subrange(0, k as int),
        decreases commands.len() - k,
    {
        remaining.push(&commands[k]);
        assert(deref_all(remaining@) =~= commands@.subrange(0, k as int).push(commands@[k as int]));
        assert(commands@.subrange(0, k + 1) =~= commands@.subrange(0, k as int).push(commands@[k as int]));
        k = k + 1;
    }
    assert(deref_all(remaining@) =~= commands@);
    assert(argv_view(executed@) =~= Seq::<Seq<char>>::empty());
    while remaining.len() > 0
        invariant
            waves_view(groups@) + waves(deref_all(remaining@), argv_view(executed@))
                == waves(commands@, Seq::empty()),
        decreases remaining.len(),
    {
        let mut current: Vec<&CustomCommand> = Vec::new();
        let mut next: Vec<&CustomCommand> = Vec::new();
        let mut i: usize = 0;
        while i < remaining.len()
            invariant
                i <= remaining@.len(),
                (deref_all(current@), deref_all(next@)) == split_ready(
                    deref_all(remaining@).subrange(0, i as int),
                    argv_view(executed@),
                ),
            decreases remaining.len() - i,
        {
            let c = remaining[i];
            let ghost old_cur = current@;
            let ghost old_next = next@;
            let ghost rs = deref_all(remaining@);
            assert(rs.subrange(0, i + 1).drop_last() =~= rs.subrange(0, i as int));
            assert(rs.subrange(0, i + 1).last() == *c);
            if ready_exec(c, &executed) {
                current.push(c);
                assert(deref_all(current@) =~= deref_all(old_cur).push(*c));
            } else {
                next.push(c);
                assert(deref_all(next@) =~= deref_all(old_next).push(*c));
            }
            i = i + 1;
        }
        assert(deref_all(remaining@).subrange(0, remaining@.len() as int) =~= deref_all(remaining@));
        proof {
            lemma_split_len(deref_all(remaining@), argv_view(executed@));
        }
        let ghost g0 = waves_view(groups@);
        if current.len() == 0 {
            let mut j: usize = 0;
            while j < next.len()
                invariant
                    j <= next@.len(),
                    waves_view(groups@) == g0 + singletons(
                        deref_all(next@).subrange(0, j as int),
                    ),
                decreases next.len() - j,
            {
                let mut one: Vec<&CustomCommand> = Vec::new();
                one.push(next[j]);
                let ghost gb = groups@;
                groups.push(one);
                assert(waves_view(groups@) =~= waves_view(gb).push(deref_all(one@)));
                let ghost nx = deref_all(next@);
                assert(deref_all(one@) =~= seq![nx[j as int]]);
                assert(singletons(nx.subrange(0, j + 1)) =~= singletons(nx.subrange(0, j as int)).push(
                    seq![nx[j as int]],
                ));
                assert(waves_view(groups@) =~= g0 + singletons(nx.subrange(0, j + 1)));
                j = j + 1;
            }
            assert(deref_all(next@).subrange(0, next@.len() as int) =~= deref_all(next@));
            return groups;
        }
        let ghost done0 = argv_view(executed@);
        let mut j: usize = 0;
        while j < current.len()
            invariant
                j <= current@.len(),
                argv_view(executed@) == done0 + names_of(deref_all(current@).subrange(0, j as int)),
            decreases current.len() - j,
        {
            let ghost eb = executed@;
            let nm = current[j].name.clone();
            executed.push(nm);
            assert(argv_view(executed@) =~= argv_view(eb).push(nm@));
            let ghost cs = deref_all(current@);
            assert(names_of(cs.subrange(0, j + 1)) =~= names_of(cs.subrange(0, j as int)).push(
                cs[j as int].name@,
            ));
            assert(argv_view(executed@) =~= done0 + names_of(cs.subrange(0, j + 1)));
            j = j + 1;
        }
        assert(deref_all(current@).subrange(0, current@.len() as int) =~= deref_all(current@));
        let ghost cur = deref_all(current@);
        groups.push(current);
        assert(waves_view(groups@) =~= g0.push(cur));
        remaining = next;
    }
    assert(waves(deref_all(remaining@), argv_view(executed@)) =~= Seq::empty());
    assert(waves_view(groups@) + Seq::empty() =~= waves_view(groups@));
    groups
}

} // verus!
