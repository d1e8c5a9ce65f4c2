//! The registry of the ids of one run: which file first emitted an id.
use crate::error::{AppError, ErrorModel};
use crate::text::{pair_texts, same_text, texts};
use vstd::prelude::*;

verus! {

/// Whether no id stands twice among the pairs of id and path.
pub open spec fn distinct_ids(reg: Seq<(Seq<char>, Seq<char>)>) -> bool {
    forall|i: int, j: int| 0 <= i < j < reg.len() ==> (#[trigger] reg[i]).0 != (#[trigger] reg[j]).0
}

/// The path of the file that emitted `id`, where one did.
pub open spec fn first_path(reg: Seq<(Seq<char>, Seq<char>)>, id: Seq<char>) -> Option<Seq<char>>
    decreases reg.len(),
{
    if reg.len() == 0 {
        None
    } else if reg[0].0 == id {
        Some(reg[0].1)
    } else {
        first_path(reg.skip(1), id)
    }
}

/// `first_path` is `None` exactly for an id that no pair holds.
pub proof fn lemma_first_path(reg: Seq<(Seq<char>, Seq<char>)>, id: Seq<char>)
    ensures
        first_path(reg, id) is None <==> forall|i: int|
            0 <= i < reg.len() ==> (#[trigger] reg[i]).0 != id,
    decreases reg.len(),
{
    if reg.len() > 0 {
        let rest = reg.skip(1);
        lemma_first_path(rest, id);
        if reg[0].0 != id {
            if first_path(rest, id) is None {
                assert forall|i: int| 0 <= i < reg.len() implies (#[trigger] reg[i]).0 != id by {
                    if i > 0 {
                        assert(rest[i - 1] == reg[i]);
                    }
                }
            } else {
                let i = choose|i: int| 0 <= i < rest.len() && (#[trigger] rest[i]).0 == id;
                assert(reg[i + 1] == rest[i]);
            }
        }
    }
}

/// The registry after the file at `path` has emitted `ids`, in order; or the
/// collision at the first of them that the registry already holds.
pub open spec fn registered(
    reg: Seq<(Seq<char>, Seq<char>)>,
    ids: Seq<Seq<char>>,
    path: Seq<char>,
) -> Result<Seq<(Seq<char>, Seq<char>)>, ErrorModel>
    decreases ids.len(),
{
    if ids.len() == 0 {
        Ok(reg)
    } else {
        match registered(reg, ids.drop_last(), path) {
            Ok(r) => match first_path(r, ids.last()) {
                Some(first) => Err(
                    ErrorModel::IdCollision {
                        id: ids.last(),
                        first_path: first,
                        second_path: path,
                    },
                ),
                None => Ok(r.push((ids.last(), path))),
            },
            Err(e) => Err(e),
        }
    }
}

/// A collision among the first ids is the collision of them all.
pub proof fn lemma_registered_error(
    reg: Seq<(Seq<char>, Seq<char>)>,
    ids: Seq<Seq<char>>,
    k: int,
    path: Seq<char>,
)
    requires
        0 <= k <= ids.len(),
        registered(reg, ids.take(k), path) is Err,
    ensures
        registered(reg, ids, path) == registered(reg, ids.take(k), path),
    decreases ids.len() - k,
{
    if k < ids.len() {
        assert(ids.take(k + 1).drop_last() == ids.take(k));
        lemma_registered_error(reg, ids, k + 1, path);
    } else {
        assert(ids.take(k) == ids);
    }
}

/// Registering keeps the ids distinct.
pub proof fn lemma_registered_distinct(
    reg: Seq<(Seq<char>, Seq<char>)>,
    ids: Seq<Seq<char>>,
    path: Seq<char>,
)
    requires
        distinct_ids(reg),
    ensures
        registered(reg, ids, path) matches Ok(r) ==> distinct_ids(r),
    decreases ids.len(),
{
    if ids.len() > 0 {
        lemma_registered_distinct(reg, ids.drop_last(), path);
        if let Ok(r) = registered(reg, ids.drop_last(), path) {
            lemma_first_path(r, ids.last());
        }
    }
}

/// The ids of a registry, in the order in which they were entered.
pub open spec fn registry_ids(reg: Seq<(Seq<char>, Seq<char>)>) -> Seq<Seq<char>> {
    Seq::new(reg.len(), |i: int| reg[i].0)
}

/// Registering enters the ids, in order, behind those that the registry
/// held.
pub proof fn lemma_registered_ids(
    reg: Seq<(Seq<char>, Seq<char>)>,
    ids: Seq<Seq<char>>,
    path: Seq<char>,
)
    ensures
        registered(reg, ids, path) matches Ok(r) ==> registry_ids(r) == registry_ids(reg) + ids,
    decreases ids.len(),
{
    if ids.len() > 0 {
        lemma_registered_ids(reg, ids.drop_last(), path);
        if let Ok(before) = registered(reg, ids.drop_last(), path) {
            if let Ok(r) = registered(reg, ids, path) {
                assert(r == before.push((ids.last(), path)));
                assert(registry_ids(r) =~= registry_ids(before).push(ids.last()));
                assert(ids == ids.drop_last().push(ids.last()));
                assert(registry_ids(r) =~= registry_ids(reg) + ids);
            }
        }
    } else {
        assert(registry_ids(reg) + ids =~= registry_ids(reg));
    }
}

/// Which file first emitted each id of a run. No id stands in it twice.
#[derive(Debug)]
pub struct IdRegistry {
    entries: Vec<(String, String)>,
}

impl View for IdRegistry {
    type V = Seq<(Seq<char>, Seq<char>)>;

    closed spec fn view(&self) -> Seq<(Seq<char>, Seq<char>)> {
        pair_texts(self.entries@)
    }
}

impl IdRegistry {
    /// Whether the registry is in order: no id stands in it twice.
    pub open spec fn wf(&self) -> bool {
        distinct_ids(self@)
    }

    /// A registry without ids.
    pub fn new() -> (r: Self)
        ensures
            r@ == Seq::<(Seq<char>, Seq<char>)>::empty(),
            r.wf(),
    {
        let r = IdRegistry { entries: Vec::new() };
        assert(r@ =~= Seq::empty());
        r
    }

    /// The number of ids.
    pub fn len(&self) -> (n: usize)
        ensures
            n == self@.len(),
    {
        self.entries.len()
    }

    /// The path of the file that emitted `id`, where one did.
    pub fn get(&self, id: &str) -> (r: Option<&String>)
        ensures
            match r {
                Some(p) => first_path(self@, id@) == Some(p@),
                None => first_path(self@, id@) is None,
            },
    {
        let mut i: usize = 0;
        proof {
            assert(self@.skip(0) == self@);
        }
        while i < self.entries.len()
            invariant
                i <= self.entries.len(),
                first_path(self@, id@) == first_path(self@.skip(i as int), id@),
            decreases self.entries.len() - i,
        {
            proof {
                let rest = self@.skip(i as int);
                assert(rest[0] == (self.entries@[i as int].0@, self.entries@[i as int].1@));
                assert(rest.skip(1) == self@.skip(i + 1));
            }
            if same_text(self.entries[i].0.as_str(), id) {
                return Some(&self.entries[i].1);
            }
            i += 1;
        }
        None
    }

    /// Enters the ids that the file at `path` emitted, in order. Fails with
    /// `IdCollision` at the first id that the registry already holds, naming
    /// the file that emitted it first and `path`.
    pub fn register(self, ids: &Vec<String>, path: &str) -> (r: Result<IdRegistry, AppError>)
        requires
            self.wf(),
        ensures
            match r {
                Ok(reg) => registered(self@, texts(ids@), path@) == Ok::<_, ErrorModel>(reg@)
                    && reg.wf(),
                Err(e) => registered(self@, texts(ids@), path@) == Err::<
                    Seq<(Seq<char>, Seq<char>)>,
                    _,
                >(e@),
            },
    {
        let ghost start = self@;
        let ghost all = texts(ids@);
        let mut reg = self;
        let mut i: usize = 0;
        proof {
            assert(all.take(0) =~= Seq::empty());
        }
        while i < ids.len()
            invariant
                i <= ids.len(),
                all == texts(ids@),
                start == self@,
                registered(start, all.take(i as int), path@) == Ok::<_, ErrorModel>(reg@),
            decreases ids.len() - i,
        {
            proof {
                let now = all.take(i + 1);
                assert(now.drop_last() == all.take(i as int));
                assert(now.last() == ids@[i as int]@);
            }
            match reg.get(ids[i].as_str()) {
                Some(first) => {
                    proof {
                        lemma_registered_error(start, all, i + 1, path@);
                    }
                    return Err(
                        AppError::IdCollision {
                            id: ids[i].clone(),
                            first_path: first.clone(),
                            second_path: path.to_owned(),
                        },
                    );
                },
                None => {
                    let entry = (ids[i].clone(), path.to_owned());
                    proof {
                        assert(pair_texts(reg.entries@.push(entry)) =~= pair_texts(
                            reg.entries@,
                        ).push((ids@[i as int]@, path@)));
                    }
                    reg.entries.push(entry);
                },
            }
            i += 1;
        }
        proof {
            assert(all.take(all.len() as int) == all);
            lemma_registered_distinct(start, all, path@);
        }
        Ok(reg)
    }
}

} // verus!
