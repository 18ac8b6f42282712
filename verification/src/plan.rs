//! Planning the extraction of a sequence of archive entries.
//!
//! Each entry yields exactly one [`Action`]: entries whose name does not
//! resolve inside the root are skipped, directory entries become
//! [`Action::MakeDir`], and file entries become [`Action::WriteFile`]
//! carrying the entry's bytes, all at the name's resolved destination
//! path.  A [`Planner`] remembers which directories earlier actions
//! already created, so a parent directory is requested at most once.

use vstd::prelude::*;

use crate::paths::copy_bytes;
use crate::paths::bytes_eq;
use crate::paths::normalize_comps;
use crate::paths::join_comps;
use crate::paths::resolvable;
use crate::paths::comps_of;
use crate::paths::join;
use crate::paths::dest_of;
use crate::paths::is_dir_name;
use crate::paths::SLASH;

verus! {

/// One entry of an archive: its name and its decompressed contents.
pub struct Entry {
    pub name: Vec<u8>,
    pub data: Vec<u8>,
}

impl View for Entry {
    type V = (Seq<u8>, Seq<u8>);

    open spec fn view(&self) -> (Seq<u8>, Seq<u8>) {
        (self.name@, self.data@)
    }
}

/// The mathematical form of an action.
pub enum ActionV {
    Skip,
    MakeDir { path: Seq<u8> },
    WriteFile { path: Seq<u8>, mkparent: Option<Seq<u8>>, data: Seq<u8> },
}

/// One filesystem action: skip the entry, create the directory `path`, or
/// write `data` to the file `path`, first creating the directory `mkparent`
/// when it is given.
#[derive(Debug)]
pub enum Action {
    Skip,
    MakeDir { path: Vec<u8> },
    WriteFile { path: Vec<u8>, mkparent: Option<Vec<u8>>, data: Vec<u8> },
}

impl View for Action {
    type V = ActionV;

    open spec fn view(&self) -> ActionV {
        match self {
            Action::Skip => ActionV::Skip,
            Action::MakeDir { path } => ActionV::MakeDir { path: path@ },
            Action::WriteFile { path, mkparent, data } => ActionV::WriteFile {
                path: path@,
                mkparent: match mkparent {
                    Some(p) => Some(p@),
                    None => None,
                },
                data: data@,
            },
        }
    }
}

/// The parent directory a file written at the path of `cs` needs created,
/// given the set `made` of directories already created: the destination of
/// all but the last component, unless there is none or it was created.
pub open spec fn spec_mkparent(made: Set<Seq<u8>>, cs: Seq<Seq<u8>>) -> Option<Seq<u8>> {
    if cs.len() >= 2 && !made.contains(join(cs.drop_last())) {
        Some(join(cs.drop_last()))
    } else {
        None
    }
}

/// The action planned for one entry, given the set `made` of directory
/// paths that earlier actions already created.
pub open spec fn step_action(made: Set<Seq<u8>>, name: Seq<u8>, data: Seq<u8>) -> ActionV {
    if !resolvable(name) {
        ActionV::Skip
    } else if is_dir_name(name) {
        ActionV::MakeDir { path: dest_of(name) }
    } else {
        ActionV::WriteFile {
            path: dest_of(name),
            mkparent: spec_mkparent(made, comps_of(name)),
            data: data,
        }
    }
}

/// The set of created directories after planning one entry.
pub open spec fn step_made(made: Set<Seq<u8>>, name: Seq<u8>) -> Set<Seq<u8>> {
    if !resolvable(name) {
        made
    } else if is_dir_name(name) {
        made.insert(dest_of(name))
    } else if comps_of(name).len() >= 2 {
        made.insert(join(comps_of(name).drop_last()))
    } else {
        made
    }
}

/// Plans one action per entry, remembering which directories the actions
/// planned so far have created.
pub struct Planner {
    made: Vec<Vec<u8>>,
}

impl View for Planner {
    type V = Set<Seq<u8>>;

    /// The set of directory paths the planned actions create.
    closed spec fn view(&self) -> Set<Seq<u8>> {
        Set::new(
            |p: Seq<u8>|
                exists|k: int| 0 <= k < self.made@.len() && #[trigger] self.made@[k]@ == p,
        )
    }
}

impl Planner {
    pub fn new() -> (r: Planner)
        ensures
            r@ == Set::<Seq<u8>>::empty(),
    {
        let r = Planner { made: Vec::new() };
        proof {
            assert(r@ =~= Set::<Seq<u8>>::empty());
        }
        r
    }

    fn contains(&self, path: &Vec<u8>) -> (b: bool)
        ensures
            b == self@.contains(path@),
    {
        let mut k: usize = 0;
        while k < self.made.len()
            invariant
                0 <= k <= self.made@.len(),
                forall|j: int| 0 <= j < k ==> #[trigger] self.made@[j]@ != path@,
            decreases self.made@.len() - k,
        {
            if bytes_eq(&self.made[k], path) {
                return true;
            }
            k = k + 1;
        }
        false
    }

    fn record(&mut self, path: Vec<u8>)
        ensures
            final(self)@ == old(self)@.insert(path@),
    {
        let ghost m0 = self.made@;
        self.made.push(path);
        proof {
            assert forall|p: Seq<u8>| self@.contains(p) implies old(self)@.insert(
                path@,
            ).contains(p) by {
                let k = choose|k: int|
                    0 <= k < self.made@.len() && #[trigger] self.made@[k]@ == p;
                if k < m0.len() {
                    assert(m0[k]@ == p);
                }
            }
            assert forall|p: Seq<u8>| old(self)@.insert(path@).contains(p) implies self@.contains(
                p,
            ) by {
                if p == path@ {
                    assert(self.made@[m0.len() as int]@ == p);
                } else {
                    let k = choose|k: int| 0 <= k < m0.len() && #[trigger] m0[k]@ == p;
                    assert(self.made@[k]@ == p);
                }
            }
            assert(self@ =~= old(self)@.insert(path@));
        }
    }

    /// Plans the action for the next entry and records any directory the
    /// action creates.
    pub fn plan_entry(&mut self, entry: &Entry) -> (a: Action)
        ensures
            a@ == step_action(old(self)@, entry.name@, entry.data@),
            final(self)@ == step_made(old(self)@, entry.name@),
    {
        let comps = match normalize_comps(&entry.name) {
            Some(cs) => cs,
            None => {
                return Action::Skip;
            },
        };
        let ghost cv = comps@.map_values(|c: Vec<u8>| c@);
        proof {
            assert(cv == comps_of(entry.name@));
        }
        let path = join_comps(&comps, comps.len());
        proof {
            assert(cv.take(comps@.len() as int) =~= cv);
            assert(path@ == dest_of(entry.name@));
        }
        let n = entry.name.len();
        if n > 0 && entry.name[n - 1] == SLASH {
            self.record(copy_bytes(&path));
            return Action::MakeDir { path };
        }
        let data = copy_bytes(&entry.data);
        if comps.len() >= 2 {
            let parent = join_comps(&comps, comps.len() - 1);
            proof {
                assert(cv.take(comps@.len() - 1) =~= cv.drop_last());
                assert(parent@ == join(cv.drop_last()));
            }
            if self.contains(&parent) {
                proof {
                    assert(old(self)@.insert(parent@) =~= old(self)@);
                }
                Action::WriteFile { path, mkparent: None, data }
            } else {
                self.record(copy_bytes(&parent));
                Action::WriteFile { path, mkparent: Some(parent), data }
            }
        } else {
            Action::WriteFile { path, mkparent: None, data }
        }
    }
}

/// The actions planned for `es[i..]`, starting from the created-set `made`.
pub open spec fn plan_from(es: Seq<(Seq<u8>, Seq<u8>)>, i: int, made: Set<Seq<u8>>) -> Seq<
    ActionV,
>
    decreases es.len() - i,
{
    if i < 0 || i >= es.len() {
        Seq::empty()
    } else {
        seq![step_action(made, es[i].0, es[i].1)] + plan_from(es, i + 1, step_made(made, es[i].0))
    }
}

/// The actions planned for a whole sequence of entries, in stored order.
pub open spec fn plan_of(es: Seq<(Seq<u8>, Seq<u8>)>) -> Seq<ActionV> {
    plan_from(es, 0, Set::empty())
}

/// Plans one action per entry, in stored order, starting with no directory
/// created yet.
pub fn plan_entries(entries: &Vec<Entry>) -> (acts: Vec<Action>)
    ensures
        acts@.map_values(|a: Action| a@) == plan_of(entries@.map_values(|e: Entry| e@)),
{
    let ghost evs = entries@.map_values(|e: Entry| e@);
    let mut planner = Planner::new();
    let mut acts: Vec<Action> = Vec::new();
    let mut i: usize = 0;
    while i < entries.len()
        invariant
            0 <= i <= entries@.len(),
            evs == entries@.map_values(|e: Entry| e@),
            acts@.len() == i,
            acts@.map_values(|a: Action| a@) + plan_from(evs, i as int, planner@) == plan_of(
                evs,
            ),
        decreases entries@.len() - i,
    {
        let ghost made0 = planner@;
        let a = planner.plan_entry(&entries[i]);
        acts.push(a);
        proof {
            assert(evs[i as int] == entries@[i as int]@);
            assert(acts@.map_values(|a: Action| a@) =~= acts@.drop_last().map_values(
                |a: Action| a@,
            ).push(a@));
            assert(seq![step_action(made0, evs[i as int].0, evs[i as int].1)] + plan_from(
                evs,
                i + 1,
                step_made(made0, evs[i as int].0),
            ) == plan_from(evs, i as int, made0));
            assert(acts@.map_values(|a: Action| a@) + plan_from(evs, i + 1, planner@)
                =~= acts@.drop_last().map_values(|a: Action| a@) + plan_from(
                evs,
                i as int,
                made0,
            ));
        }
        i = i + 1;
    }
    proof {
        assert(acts@.map_values(|a: Action| a@) + plan_from(evs, i as int, planner@)
            =~= acts@.map_values(|a: Action| a@));
    }
    acts
}

/// How the action planned for entry `e` mirrors `e`: names that do not
/// resolve are skipped, directory names yield `MakeDir` at their resolved
/// destination, file names yield `WriteFile` at their resolved destination
/// carrying exactly the entry's bytes.
pub open spec fn shape_ok(a: ActionV, e: (Seq<u8>, Seq<u8>)) -> bool {
    if !resolvable(e.0) {
        a is Skip
    } else if is_dir_name(e.0) {
        a == (ActionV::MakeDir { path: dest_of(e.0) })
    } else {
        match a {
            ActionV::WriteFile { path, mkparent, data } => path == dest_of(e.0) && data == e.1,
            _ => false,
        }
    }
}

proof fn lemma_plan_from_len(es: Seq<(Seq<u8>, Seq<u8>)>, i: int, made: Set<Seq<u8>>)
    requires
        0 <= i <= es.len(),
    ensures
        plan_from(es, i, made).len() == es.len() - i,
    decreases es.len() - i,
{
    if i < es.len() {
        lemma_plan_from_len(es, i + 1, step_made(made, es[i].0));
    }
}

proof fn lemma_plan_from_shape(es: Seq<(Seq<u8>, Seq<u8>)>, i: int, made: Set<Seq<u8>>)
    requires
        0 <= i <= es.len(),
    ensures
        plan_from(es, i, made).len() == es.len() - i,
        forall|j: int|
            0 <= j < es.len() - i ==> shape_ok(#[trigger] plan_from(es, i, made)[j], es[i + j]),
    decreases es.len() - i,
{
    if i < es.len() {
        let made1 = step_made(made, es[i].0);
        lemma_plan_from_shape(es, i + 1, made1);
        assert(shape_ok(step_action(made, es[i].0, es[i].1), es[i]));
        assert forall|j: int| 0 <= j < es.len() - i implies shape_ok(
            #[trigger] plan_from(es, i, made)[j],
            es[i + j],
        ) by {
            if j == 0 {
                assert(plan_from(es, i, made)[0] == step_action(made, es[i].0, es[i].1));
            } else {
                assert(plan_from(es, i, made)[j] == plan_from(es, i + 1, made1)[j - 1]);
                assert(shape_ok(plan_from(es, i + 1, made1)[j - 1], es[(i + 1) + (j - 1)]));
            }
        }
    }
}

/// Law: the plan holds exactly one action per entry, in stored order; an
/// entry is skipped exactly when its name does not resolve inside the
/// root; a resolvable directory entry yields `MakeDir` at its destination
/// path; a resolvable file entry yields `WriteFile` at its destination
/// path, carrying the entry's bytes unchanged.
pub proof fn lemma_plan_matches_entries(es: Seq<(Seq<u8>, Seq<u8>)>)
    ensures
        plan_of(es).len() == es.len(),
        forall|i: int| 0 <= i < es.len() ==> shape_ok(#[trigger] plan_of(es)[i], es[i]),
        forall|i: int|
            0 <= i < es.len() ==> ((#[trigger] plan_of(es)[i] is Skip) <==> !resolvable(es[i].0)),
{
    lemma_plan_from_shape(es, 0, Set::empty());
    assert forall|i: int| 0 <= i < es.len() implies ((#[trigger] plan_of(es)[i] is Skip)
        <==> !resolvable(es[i].0)) by {
        assert(shape_ok(plan_of(es)[i], es[i]));
        if resolvable(es[i].0) {
            if is_dir_name(es[i].0) {
            } else {
            }
        }
    }
}

/// Whether action `a` writes a file at the path `p`.
pub open spec fn writes_file_at(a: ActionV, p: Seq<u8>) -> bool {
    match a {
        ActionV::WriteFile { path, mkparent, data } => path == p,
        _ => false,
    }
}

/// Law: a directory entry gets a directory, never a file.  The plan writes
/// a file only at a file entry's resolved destination, so as long as no
/// other entry resolves to the directory's path — destinations in an
/// archive are normally distinct — no action writes a file at that path.
pub proof fn lemma_no_file_at_dir_path(es: Seq<(Seq<u8>, Seq<u8>)>, j: int)
    requires
        0 <= j < es.len(),
        resolvable(es[j].0),
        is_dir_name(es[j].0),
        forall|k: int| 0 <= k < es.len() && k != j ==> dest_of(es[k].0) != dest_of(es[j].0),
    ensures
        plan_of(es)[j] == (ActionV::MakeDir { path: dest_of(es[j].0) }),
        forall|k: int|
            0 <= k < es.len() ==> !writes_file_at(#[trigger] plan_of(es)[k], dest_of(es[j].0)),
{
    lemma_plan_matches_entries(es);
    assert forall|k: int| 0 <= k < es.len() implies !writes_file_at(
        #[trigger] plan_of(es)[k],
        dest_of(es[j].0),
    ) by {
        assert(shape_ok(plan_of(es)[k], es[k]));
    }
}

/// Whether action `a` creates the directory `p`, either as a directory
/// entry of its own or as the parent of a file it writes.
pub open spec fn creates_dir(a: ActionV, p: Seq<u8>) -> bool {
    match a {
        ActionV::Skip => false,
        ActionV::MakeDir { path } => path == p,
        ActionV::WriteFile { path, mkparent, data } => mkparent == Some(p),
    }
}

/// Whether action `a` creates the directory `p` as the parent of a file.
pub open spec fn makes_parent(a: ActionV, p: Seq<u8>) -> bool {
    match a {
        ActionV::WriteFile { path, mkparent, data } => mkparent == Some(p),
        _ => false,
    }
}

proof fn lemma_no_reparent(es: Seq<(Seq<u8>, Seq<u8>)>, i: int, made: Set<Seq<u8>>, p: Seq<u8>)
    requires
        0 <= i <= es.len(),
        made.contains(p),
    ensures
        forall|k: int|
            0 <= k < es.len() - i ==> !makes_parent(#[trigger] plan_from(es, i, made)[k], p),
    decreases es.len() - i,
{
    if i < es.len() {
        let made1 = step_made(made, es[i].0);
        assert(plan_from(es, i, made) == seq![step_action(made, es[i].0, es[i].1)] + plan_from(
            es,
            i + 1,
            made1,
        ));
        assert(made1.contains(p));
        lemma_plan_from_len(es, i + 1, made1);
        lemma_no_reparent(es, i + 1, made1, p);
        assert forall|k: int| 0 <= k < es.len() - i implies !makes_parent(
            #[trigger] plan_from(es, i, made)[k],
            p,
        ) by {
            if k == 0 {
                assert(plan_from(es, i, made)[0] == step_action(made, es[i].0, es[i].1));
            } else {
                assert(plan_from(es, i, made)[k] == plan_from(es, i + 1, made1)[k - 1]);
                assert(!makes_parent(plan_from(es, i + 1, made1)[k - 1], p));
            }
        }
    }
}

proof fn lemma_creates_blocks(
    es: Seq<(Seq<u8>, Seq<u8>)>,
    i: int,
    made: Set<Seq<u8>>,
    j: int,
    k: int,
    p: Seq<u8>,
)
    requires
        0 <= i <= es.len(),
        0 <= j < k < es.len() - i,
        creates_dir(plan_from(es, i, made)[j], p),
    ensures
        !makes_parent(plan_from(es, i, made)[k], p),
    decreases j,
{
    let made1 = step_made(made, es[i].0);
    lemma_plan_from_len(es, i + 1, made1);
    assert(plan_from(es, i, made) == seq![step_action(made, es[i].0, es[i].1)] + plan_from(
        es,
        i + 1,
        made1,
    ));
    assert(plan_from(es, i, made)[0] == step_action(made, es[i].0, es[i].1));
    if j == 0 {
        assert(made1.contains(p));
        lemma_no_reparent(es, i + 1, made1, p);
        assert(plan_from(es, i, made)[k] == plan_from(es, i + 1, made1)[k - 1]);
        assert(!makes_parent(plan_from(es, i + 1, made1)[k - 1], p));
    } else {
        assert(plan_from(es, i, made)[j] == plan_from(es, i + 1, made1)[j - 1]);
        lemma_creates_blocks(es, i + 1, made1, j - 1, k - 1, p);
        assert(plan_from(es, i, made)[k] == plan_from(es, i + 1, made1)[k - 1]);
    }
}

/// Law: a parent directory is created at most once.  Once the action at
/// position `j` has created the directory `p` — as a directory entry or as
/// a file's parent — no later action creates `p` again as a file's parent.
pub proof fn lemma_parent_created_once(es: Seq<(Seq<u8>, Seq<u8>)>, j: int, k: int, p: Seq<u8>)
    requires
        0 <= j < k < es.len(),
        creates_dir(plan_of(es)[j], p),
    ensures
        !makes_parent(plan_of(es)[k], p),
{
    lemma_creates_blocks(es, 0, Set::empty(), j, k, p);
}

} // verus!
