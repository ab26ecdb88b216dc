//! The lock file `BitForge.lock`: the commit each dependency layer is pinned to.

use vstd::prelude::*;

use crate::config::{short_sha, short_sha_spec, BitForgeConfig, LayerDependency};
use crate::dependency::layer_git_ref;
use crate::records::{ref_view, GitRef, RefModel};
use crate::sorted_map::SortedMap;
use crate::text::eq_str;
use crate::workspace::{join, path_join};

verus! {

pub const LOCK_FILE_NAME: &'static str = "BitForge.lock";

/// The contents of the lock file.
#[derive(Debug)]
pub struct LockData {
    pub version: u32,
    /// Repository name, then layer key.
    pub layers: SortedMap<SortedMap<LockedLayer>>,
}

/// One pinned layer.
#[derive(Debug)]
pub struct LockedLayer {
    pub giturl: String,
    pub reference: String,
    pub commit: String,
    pub worktree: String,
}

/// The lock file of a project and its contents.
#[derive(Debug)]
pub struct LockManager {
    pub lock_file_path: String,
    pub data: LockData,
}

impl LockData {
    /// What a missing or blank lock file holds: version 1, nothing pinned.
    pub fn fresh() -> (r: Self)
        ensures
            r.version == 1,
            r.wf(),
            r.layers.entries@.len() == 0,
            forall|k: Seq<char>| r.layers.get_spec(k) is None,
    {
        LockData { version: 1, layers: SortedMap::new() }
    }
}

impl LockData {
    /// The repository map and each repository's layer map are sorted.
    pub open spec fn wf(&self) -> bool {
        &&& self.layers.wf()
        &&& forall|k: Seq<char>| #[trigger]
            self.layers.get_spec(k) is Some ==> self.layers.get_spec(k)->0.wf()
    }

    /// The pins of layer `layer` of repository `repo`.
    pub open spec fn pinned(&self, repo: Seq<char>, layer: Seq<char>) -> Option<LockedLayer> {
        match self.layers.get_spec(repo) {
            Some(m) => m.get_spec(layer),
            None => None,
        }
    }

    /// Forgets the repositories that the manifest no longer names.
    pub fn retain_repositories(&mut self, config: &BitForgeConfig)
        requires
            old(self).wf(),
            config.wf(),
        ensures
            final(self).wf(),
            final(self).version == old(self).version,
            forall|k: Seq<char>|
                #[trigger] final(self).layers.get_spec(k) == if config.dependency.get_spec(k) is Some {
                    old(self).layers.get_spec(k)
                } else {
                    None
                },
    {
        self.layers.retain_keys_of(&config.dependency);
    }

    /// Makes sure repository `repo` has a (possibly empty) layer map and
    /// forgets its layers that `layers` does not name.
    pub fn retain_layers(&mut self, repo: &String, layers: &SortedMap<LayerDependency>)
        requires
            old(self).wf(),
            layers.wf(),
        ensures
            final(self).wf(),
            final(self).version == old(self).version,
            final(self).layers.get_spec(repo@) is Some,
            forall|l: Seq<char>|
                #[trigger] final(self).pinned(repo@, l) == if layers.get_spec(l) is Some {
                    old(self).pinned(repo@, l)
                } else {
                    None
                },
            forall|k: Seq<char>|
                k != repo@ ==> #[trigger] final(self).layers.get_spec(k) == old(self).layers.get_spec(k),
    {
        let mut inner = match self.layers.remove(repo) {
            Some(m) => m,
            None => SortedMap::new(),
        };
        inner.retain_keys_of(layers);
        self.layers.insert(repo.clone(), inner);
    }

    /// Pins layer `layer` of repository `repo`.
    pub fn pin(&mut self, repo: &String, layer: String, locked: LockedLayer)
        requires
            old(self).wf(),
        ensures
            final(self).wf(),
            final(self).version == old(self).version,
            final(self).pinned(repo@, layer@) == Some(locked),
            forall|l: Seq<char>|
                l != layer@ ==> #[trigger] final(self).pinned(repo@, l) == old(self).pinned(repo@, l),
            forall|k: Seq<char>|
                k != repo@ ==> #[trigger] final(self).layers.get_spec(k) == old(self).layers.get_spec(k),
    {
        let mut inner = match self.layers.remove(repo) {
            Some(m) => m,
            None => SortedMap::new(),
        };
        inner.insert(layer, locked);
        self.layers.insert(repo.clone(), inner);
    }
}

/// The commit shown for a dependency layer: the pinned commit, else the
/// commit the manifest names, cut to its first twelve characters.
pub open spec fn shown_commit_spec(
    locked: Option<LockedLayer>,
    dependency: Option<LayerDependency>,
) -> Option<Seq<char>> {
    match locked {
        Some(l) => Some(short_sha_spec(l.commit@)),
        None => match dependency {
            Some(d) => match d.commit {
                Some(c) => Some(short_sha_spec(c@)),
                None => None,
            },
            None => None,
        },
    }
}

pub fn shown_commit(locked: Option<&LockedLayer>, dependency: Option<&LayerDependency>) -> (r:
    Option<String>)
    ensures
        match r {
            Some(s) => shown_commit_spec(
                match locked {
                    Some(l) => Some(*l),
                    None => None,
                },
                match dependency {
                    Some(d) => Some(*d),
                    None => None,
                },
            ) == Some(s@),
            None => shown_commit_spec(
                match locked {
                    Some(l) => Some(*l),
                    None => None,
                },
                match dependency {
                    Some(d) => Some(*d),
                    None => None,
                },
            ) is None,
        },
{
    match locked {
        Some(l) => Some(short_sha(l.commit.as_str())),
        None => match dependency {
            Some(d) => match &d.commit {
                Some(c) => Some(short_sha(c.as_str())),
                None => None,
            },
            None => None,
        },
    }
}

impl LockedLayer {
    /// The pin of `layer` of the repository at `giturl`, checked out at
    /// `commit` in `worktree`: it records the layer's reference label.
    pub fn for_layer(giturl: &str, layer: &LayerDependency, commit: String, worktree: String) -> (r:
        Self)
        ensures
            r.giturl@ == giturl@,
            r.reference@ == layer.reference_label_spec(),
            r.commit == commit,
            r.worktree == worktree,
    {
        LockedLayer { giturl: String::from_str(giturl), reference: layer.reference_label(), commit, worktree }
    }
}

/// The reference a layer names: its commit, else its tag, else its branch.
pub open spec fn layer_ref_spec(layer: LayerDependency) -> Option<RefModel> {
    match (layer.commit, layer.tag, layer.branch) {
        (Some(c), _, _) => Some(RefModel::Commit(c@)),
        (None, Some(t), _) => Some(RefModel::Tag(t@)),
        (None, None, Some(b)) => Some(RefModel::Branch(b@)),
        (None, None, None) => None,
    }
}

/// The lock pins `layer` of the repository at `giturl`: its entry names that
/// URL and the layer's reference, and holds a commit.
pub open spec fn pins_layer(locked: Option<LockedLayer>, layer: LayerDependency, giturl: Seq<char>) -> bool {
    locked matches Some(l) && l.giturl@ == giturl && l.reference@ == layer.reference_label_spec()
        && l.commit@.len() > 0
}

/// What a layer is checked out at: the pinned commit while the lock pins
/// the layer as the manifest names it, else the manifest's reference.
pub open spec fn checkout_ref_spec(
    locked: Option<LockedLayer>,
    layer: LayerDependency,
    giturl: Seq<char>,
) -> Option<RefModel> {
    if pins_layer(locked, layer, giturl) {
        Some(RefModel::Commit(locked->0.commit@))
    } else {
        layer_ref_spec(layer)
    }
}

pub open spec fn locked_view(locked: Option<&LockedLayer>) -> Option<LockedLayer> {
    match locked {
        Some(l) => Some(*l),
        None => None,
    }
}

/// The reference to check `layer` out at, given its entry in the lock file
/// (if any) and the URL of its repository.
pub fn checkout_ref(locked: Option<&LockedLayer>, layer: &LayerDependency, giturl: &str) -> (r: Option<
    GitRef,
>)
    ensures
        ref_view(r) == checkout_ref_spec(locked_view(locked), *layer, giturl@),
{
    if let Some(l) = locked {
        let label = layer.reference_label();
        if eq_str(&l.giturl, giturl) && l.reference == label && l.commit.as_str().unicode_len() > 0 {
            return Some(GitRef::Commit(l.commit.clone()));
        }
    }
    layer_git_ref(layer)
}

/// A layer pinned at a commit, with the repository's URL and the layer's
/// reference as the manifest names them, is checked out at that commit
/// again: a fresh checkout rebuilds the same tree.
pub proof fn law_pinned_commit_is_checked_out(
    lock: LockData,
    repo: Seq<char>,
    key: Seq<char>,
    giturl: Seq<char>,
    layer: LayerDependency,
    locked: LockedLayer,
)
    requires
        lock.pinned(repo, key) == Some(locked),
        locked.giturl@ == giturl,
        locked.reference@ == layer.reference_label_spec(),
        locked.commit@.len() > 0,
    ensures
        checkout_ref_spec(lock.pinned(repo, key), layer, giturl) == Some(RefModel::Commit(locked.commit@)),
{
}

/// The directories of a repository's pinned layers, in key order: each
/// layer's directory inside the worktree the lock records for it. A layer
/// the lock does not pin, or pins without a worktree, has none.
pub open spec fn repo_layer_paths(
    lock: LockData,
    repo: Seq<char>,
    layers: Seq<(String, LayerDependency)>,
) -> Seq<Seq<char>>
    decreases layers.len(),
{
    if layers.len() == 0 {
        Seq::empty()
    } else {
        let rest = repo_layer_paths(lock, repo, layers.drop_last());
        let key = layers.last().0@;
        match lock.pinned(repo, key) {
            Some(l) => if l.worktree@.len() > 0 {
                rest.push(path_join(l.worktree@, layers.last().1.subpath_spec(key)))
            } else {
                rest
            },
            None => rest,
        }
    }
}

/// The directories of the pinned layers of all repositories, in key order.
pub open spec fn all_layer_paths(
    lock: LockData,
    repos: Seq<(String, SortedMap<LayerDependency>)>,
) -> Seq<Seq<char>>
    decreases repos.len(),
{
    if repos.len() == 0 {
        Seq::empty()
    } else {
        all_layer_paths(lock, repos.drop_last()) + repo_layer_paths(
            lock,
            repos.last().0@,
            repos.last().1.entries@,
        )
    }
}

/// The directories of the manifest's dependency layers that the lock file
/// has placed: the paths a dependency layer can be delinked by.
pub fn dependency_layer_paths(config: &BitForgeConfig, lock: &LockData) -> (r: Vec<String>)
    requires
        lock.wf(),
    ensures
        crate::text::string_views(r@) == all_layer_paths(*lock, config.dependency.entries@),
{
    let mut out: Vec<String> = Vec::new();
    let mut i: usize = 0;
    let ghost repos = config.dependency.entries@;
    while i < config.dependency.entries.len()
        invariant
            lock.wf(),
            repos == config.dependency.entries@,
            i <= repos.len(),
            crate::text::string_views(out@) == all_layer_paths(*lock, repos.take(i as int)),
        decreases repos.len() - i,
    {
        let repo = &config.dependency.entries[i].0;
        let layers = &config.dependency.entries[i].1;
        let ghost before = crate::text::string_views(out@);
        let mut j: usize = 0;
        while j < layers.entries.len()
            invariant
                lock.wf(),
                j <= layers.entries@.len(),
                crate::text::string_views(out@) == before + repo_layer_paths(
                    *lock,
                    repo@,
                    layers.entries@.take(j as int),
                ),
            decreases layers.entries@.len() - j,
        {
            let key = &layers.entries[j].0;
            let ghost mid = crate::text::string_views(out@);
            assert(layers.entries@.take(j + 1).drop_last() =~= layers.entries@.take(j as int));
            assert(layers.entries@.take(j + 1).last() == layers.entries@[j as int]);
            match self::pinned_layer(lock, repo, key) {
                Some(l) => {
                    if l.worktree.as_str().unicode_len() > 0 {
                        let sub = layers.entries[j].1.subpath(key.as_str());
                        let path = join(l.worktree.as_str(), sub.as_str());
                        out.push(path);
                        assert(crate::text::string_views(out@) =~= mid.push(path@));
                    }
                },
                None => {},
            }
            j = j + 1;
        }
        assert(layers.entries@.take(layers.entries@.len() as int) =~= layers.entries@);
        assert(repos.take(i + 1).drop_last() =~= repos.take(i as int));
        assert(repos.take(i + 1).last() == repos[i as int]);
        i = i + 1;
    }
    assert(repos.take(repos.len() as int) =~= repos);
    out
}

/// The pin of layer `key` of repository `repo`.
fn pinned_layer<'a>(lock: &'a LockData, repo: &String, key: &String) -> (r: Option<&'a LockedLayer>)
    requires
        lock.wf(),
    ensures
        locked_view(r) == lock.pinned(repo@, key@),
{
    match lock.layers.get(repo) {
        Some(m) => m.get(key),
        None => None,
    }
}

impl LockManager {
    pub open spec fn path_spec(&self) -> Seq<char> {
        self.lock_file_path@
    }

    /// The lock file of the project in `directory`, holding `data`.
    pub fn new(directory: &str, data: LockData) -> (r: Self)
        ensures
            r.path_spec() == path_join(directory@, LOCK_FILE_NAME@),
            r.data == data,
    {
        LockManager { lock_file_path: join(directory, LOCK_FILE_NAME), data }
    }

    /// Where the lock file is.
    pub fn path(&self) -> (r: &str)
        ensures
            r@ == self.path_spec(),
    {
        self.lock_file_path.as_str()
    }
}

} // verus!
