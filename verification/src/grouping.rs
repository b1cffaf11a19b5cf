//! Grouping position reports by file.

use crate::position::{FilePosition, Position};
use vstd::prelude::*;

verus! {

/// The positions reported for one file.
#[derive(Debug, Clone)]
pub struct PathPositions {
    /// The file path.
    pub path: String,
    /// The positions inside the file, in the order in which they were
    /// reported.
    pub positions: Vec<Position>,
}

impl DeepView for PathPositions {
    type V = (Seq<char>, Seq<Position>);

    open spec fn deep_view(&self) -> (Seq<char>, Seq<Position>) {
        (self.path@, self.positions@)
    }
}

/// The positions that the reports give for a path, in the order of the
/// reports.
pub open spec fn positions_of(found: Seq<(Seq<char>, Position)>, path: Seq<char>) -> Seq<Position>
    decreases found.len(),
{
    if found.len() == 0 {
        Seq::empty()
    } else if found.last().0 == path {
        positions_of(found.drop_last(), path).push(found.last().1)
    } else {
        positions_of(found.drop_last(), path)
    }
}

/// The paths that the reports name, each once, in the order in which they
/// first appear.
pub open spec fn paths_of(found: Seq<(Seq<char>, Position)>) -> Seq<Seq<char>>
    decreases found.len(),
{
    if found.len() == 0 {
        Seq::empty()
    } else if paths_of(found.drop_last()).contains(found.last().0) {
        paths_of(found.drop_last())
    } else {
        paths_of(found.drop_last()).push(found.last().0)
    }
}

/// The reports grouped by path: one group for each path, in the order in
/// which the paths first appear, with the positions reported for that path.
pub open spec fn grouped(found: Seq<(Seq<char>, Position)>) -> Seq<(Seq<char>, Seq<Position>)> {
    Seq::new(
        paths_of(found).len(),
        |i: int| (paths_of(found)[i], positions_of(found, paths_of(found)[i])),
    )
}

/// Whether one of the paths is `path`.
fn has_path(paths: &Vec<String>, path: &String) -> (r: bool)
    ensures
        r == paths.deep_view().contains(path@),
{
    let mut i: usize = 0;
    while i < paths.len()
        invariant
            i <= paths@.len(),
            forall|j: int| 0 <= j < i ==> paths.deep_view()[j] != path@,
        decreases paths@.len() - i,
    {
        if paths[i] == *path {
            assert(paths.deep_view()[i as int] == path@);
            return true;
        }
        i = i + 1;
    }
    false
}

/// The paths that the reports name, each once, in the order in which they
/// first appear.
pub fn distinct_paths(found: &Vec<FilePosition>) -> (paths: Vec<String>)
    ensures
        paths.deep_view() == paths_of(found.deep_view()),
{
    let ghost all = found.deep_view();
    let mut paths: Vec<String> = Vec::new();
    let mut i: usize = 0;
    proof {
        assert(paths.deep_view() =~= paths_of(all.subrange(0, 0)));
    }
    while i < found.len()
        invariant
            i <= found@.len(),
            all == found.deep_view(),
            paths.deep_view() == paths_of(all.subrange(0, i as int)),
        decreases found@.len() - i,
    {
        let ghost upto = all.subrange(0, i + 1);
        proof {
            assert(upto.drop_last() =~= all.subrange(0, i as int));
            assert(upto.last() == found@[i as int].deep_view());
        }
        if !has_path(&paths, &found[i].path) {
            let ghost before = paths.deep_view();
            paths.push(found[i].path.clone());
            assert(paths.deep_view() =~= before.push(found@[i as int].path@));
        }
        i = i + 1;
    }
    proof {
        assert(all.subrange(0, i as int) =~= all);
    }
    paths
}

/// The positions that the reports give for a path, in the order of the
/// reports.
pub fn positions_for(found: &Vec<FilePosition>, path: &String) -> (positions: Vec<Position>)
    ensures
        positions@ == positions_of(found.deep_view(), path@),
{
    let ghost all = found.deep_view();
    let mut positions: Vec<Position> = Vec::new();
    let mut i: usize = 0;
    proof {
        assert(positions@ =~= positions_of(all.subrange(0, 0), path@));
    }
    while i < found.len()
        invariant
            i <= found@.len(),
            all == found.deep_view(),
            positions@ == positions_of(all.subrange(0, i as int), path@),
        decreases found@.len() - i,
    {
        let ghost upto = all.subrange(0, i + 1);
        proof {
            assert(upto.drop_last() =~= all.subrange(0, i as int));
            assert(upto.last() == found@[i as int].deep_view());
        }
        if found[i].path == *path {
            positions.push(found[i].position);
        }
        i = i + 1;
    }
    proof {
        assert(all.subrange(0, i as int) =~= all);
    }
    positions
}

/// Groups the reports by path. The groups stand in the order in which their
/// paths first appear, and each holds the positions reported for its path in
/// the order of the reports.
pub fn group_by_path(found: &Vec<FilePosition>) -> (groups: Vec<PathPositions>)
    ensures
        groups.deep_view() == grouped(found.deep_view()),
{
    let paths = distinct_paths(found);
    let mut groups: Vec<PathPositions> = Vec::new();
    let mut i: usize = 0;
    while i < paths.len()
        invariant
            i <= paths@.len(),
            paths.deep_view() == paths_of(found.deep_view()),
            groups@.len() == i,
            forall|j: int|
                0 <= j < i ==> (#[trigger] groups@[j]).deep_view() == grouped(
                    found.deep_view(),
                )[j],
        decreases paths@.len() - i,
    {
        assert(paths.deep_view()[i as int] == paths@[i as int]@);
        let positions = positions_for(found, &paths[i]);
        groups.push(PathPositions { path: paths[i].clone(), positions });
        i = i + 1;
    }
    assert(groups.deep_view() =~= grouped(found.deep_view()));
    groups
}

/// No path stands twice among the paths of the reports, and every report's
/// path stands among them.
pub proof fn lemma_paths_of(found: Seq<(Seq<char>, Position)>)
    ensures
        paths_of(found).no_duplicates(),
        forall|i: int| 0 <= i < found.len() ==> paths_of(found).contains((#[trigger] found[i]).0),
        forall|path: Seq<char>|
            paths_of(found).contains(path) ==> exists|i: int|
                0 <= i < found.len() && (#[trigger] found[i]).0 == path,
    decreases found.len(),
{
    if found.len() > 0 {
        let before = found.drop_last();
        lemma_paths_of(before);
        let last = found.last().0;
        assert forall|i: int| 0 <= i < found.len() implies paths_of(found).contains(
            (#[trigger] found[i]).0,
        ) by {
            if i < found.len() - 1 {
                assert(before[i] == found[i]);
                let at = choose|at: int|
                    0 <= at < paths_of(before).len() && paths_of(before)[at] == found[i].0;
                assert(paths_of(found)[at] == found[i].0);
            } else if !paths_of(before).contains(last) {
                assert(paths_of(found)[paths_of(before).len() as int] == last);
            }
        }
        assert forall|path: Seq<char>| paths_of(found).contains(path) implies exists|i: int|
            0 <= i < found.len() && (#[trigger] found[i]).0 == path by {
            if paths_of(before).contains(path) {
                let i = choose|i: int| 0 <= i < before.len() && (#[trigger] before[i]).0 == path;
                assert(found[i].0 == path);
            } else {
                assert(found[found.len() - 1].0 == path);
            }
        }
    }
}

} // verus!
