//! The release inventory: the set of locally installed binary versions, one
//! directory per version under the release root.

use vstd::prelude::*;

use crate::common::JorupConfig;
use crate::version::{find_best_match, spec_selects, spec_version_str, Version, VersionReq};

verus! {

/// Errors of the release inventory.
#[derive(Clone, Copy, Debug, PartialEq, Eq, Structural)]
pub enum ReleaseError {
    NoCompatibleReleaseInstalled(VersionReq),
    ReleaseNotInstalled(Version),
    RemoveFailed,
    SettingsPersistFailed,
}

/// One installed release: its version and its directory under the release
/// root, named by the version's canonical string.
pub struct Release {
    pub version: Version,
    pub dir: String,
}

impl Release {
    /// The release for a version under this configuration's release root.
    pub fn new(cfg: &JorupConfig, version: Version) -> (r: Release)
        ensures
            r.version == version,
            r.dir@ == cfg.home_dir@ + "/release/"@ + spec_version_str(version),
    {
        let mut d = cfg.release_dir();
        d.append("/");
        let vs = version.to_string();
        d.append(vs.as_str());
        proof {
            reveal_strlit("/release");
            reveal_strlit("/");
            reveal_strlit("/release/");
            assert(d@ =~= cfg.home_dir@ + "/release/"@ + spec_version_str(version));
        }
        Release { version, dir: d }
    }

    /// This release's directory.
    pub fn dir(&self) -> (r: &String)
        ensures
            *r == self.dir,
    {
        &self.dir
    }

    /// Where this release's downloaded asset is cached.
    pub fn get_asset(&self) -> (r: String)
        ensures
            r@ == self.dir@ + "/asset.tar.gz"@,
    {
        let mut r = self.dir.clone();
        r.append("/asset.tar.gz");
        r
    }
}

/// The set of installed versions. Each version appears at most once: the
/// inventory mirrors one directory per installed version.
pub struct ReleaseInventory {
    pub installed: Vec<Version>,
}

impl ReleaseInventory {
    /// One directory per version: no version is listed twice.
    pub open spec fn wf(&self) -> bool {
        forall|i: int, j: int|
            0 <= i < j < self.installed@.len() ==> self.installed@[i] != self.installed@[j]
    }

    /// The empty inventory.
    pub fn new() -> (r: ReleaseInventory)
        ensures
            r.wf(),
            r.installed@.len() == 0,
    {
        ReleaseInventory { installed: Vec::new() }
    }

    /// Whether a version is installed.
    pub fn contains(&self, v: &Version) -> (b: bool)
        ensures
            b == self.installed@.contains(*v),
    {
        let mut i: usize = 0;
        while i < self.installed.len()
            invariant
                i <= self.installed@.len(),
                forall|j: int| 0 <= j < i ==> self.installed@[j] != *v,
            decreases self.installed@.len() - i,
        {
            if self.installed[i] == *v {
                assert(self.installed@.contains(*v)) by {
                    assert(self.installed@[i as int] == *v);
                }
                return true;
            }
            i = i + 1;
        }
        false
    }

    /// The inventory read off the release root's directory names: each name
    /// spelling a version canonically counts, anything else is ignored.
    pub fn from_dir_names(names: &Vec<String>) -> (r: ReleaseInventory)
        ensures
            r.wf(),
            forall|x: Version|
                r.installed@.contains(x) <==> exists|i: int|
                    0 <= i < names@.len() && #[trigger] names@[i]@ == spec_version_str(x),
    {
        let mut inv = ReleaseInventory::new();
        let mut i: usize = 0;
        while i < names.len()
            invariant
                i <= names@.len(),
                inv.wf(),
                forall|x: Version|
                    inv.installed@.contains(x) <==> exists|j: int|
                        0 <= j < i && #[trigger] names@[j]@ == spec_version_str(x),
            decreases names@.len() - i,
        {
            let ghost pre = inv.installed@;
            match Version::parse(names[i].as_str()) {
                Ok(v) => {
                    inv.register(v);
                    proof {
                        assert(names@[i as int]@ == spec_version_str(v));
                        assert forall|x: Version| inv.installed@.contains(x) implies exists|j: int|
                            0 <= j < i + 1 && #[trigger] names@[j]@ == spec_version_str(x) by {
                            if x == v {
                                assert(names@[i as int]@ == spec_version_str(x));
                            } else {
                                assert(pre.contains(x));
                            }
                        }
                        assert forall|x: Version|
                            (exists|j: int|
                                0 <= j < i + 1 && #[trigger] names@[j]@ == spec_version_str(
                                    x,
                                )) implies inv.installed@.contains(x) by {
                            let j = choose|j: int|
                                0 <= j < i + 1 && #[trigger] names@[j]@ == spec_version_str(x);
                            if j < i {
                                assert(pre.contains(x));
                            } else {
                                assert(names@[i as int]@ == spec_version_str(x));
                                crate::version::lemma_version_str_injective(x, v);
                            }
                        }
                    }
                },
                Err(_) => {
                    proof {
                        assert forall|x: Version|
                            inv.installed@.contains(x) <==> exists|j: int|
                                0 <= j < i + 1 && #[trigger] names@[j]@ == spec_version_str(
                                    x,
                                ) by {
                            if exists|j: int|
                                0 <= j < i + 1 && #[trigger] names@[j]@ == spec_version_str(x) {
                                let j = choose|j: int|
                                    0 <= j < i + 1 && #[trigger] names@[j]@ == spec_version_str(x);
                                if j == i {
                                    assert(names@[i as int]@ == spec_version_str(x));
                                    assert(false);
                                }
                            }
                        }
                    }
                },
            }
            i = i + 1;
        }
        inv
    }

    /// Record a version as installed. Registering an already-installed
    /// version changes nothing.
    pub fn register(&mut self, v: Version)
        requires
            old(self).wf(),
        ensures
            final(self).wf(),
            forall|x: Version|
                final(self).installed@.contains(x) <==> (old(self).installed@.contains(x) || x
                    == v),
            old(self).installed@.contains(v) ==> *final(self) == *old(self),
            final(self).installed@.contains(v),
    {
        if !self.contains(&v) {
            let ghost pre = self.installed@;
            self.installed.push(v);
            proof {
                assert(self.installed@ == pre.push(v));
                assert forall|x: Version|
                    self.installed@.contains(x) <==> (pre.contains(x) || x == v) by {
                    if self.installed@.contains(x) {
                        let k = choose|k: int|
                            0 <= k < self.installed@.len() && self.installed@[k] == x;
                        if k < pre.len() {
                            assert(pre[k] == x);
                            assert(pre.contains(x));
                        }
                    }
                    if pre.contains(x) {
                        let k = choose|k: int| 0 <= k < pre.len() && pre[k] == x;
                        assert(self.installed@[k] == x);
                        assert(self.installed@.contains(x));
                    }
                    if x == v {
                        assert(self.installed@[pre.len() as int] == v);
                        assert(self.installed@.contains(v));
                    }
                }
                assert forall|i: int, j: int|
                    0 <= i < j < self.installed@.len() implies self.installed@[i]
                    != self.installed@[j] by {
                    if j == pre.len() {
                        assert(self.installed@[i] == pre[i]);
                        assert(pre.contains(pre[i]));
                    }
                }
            }
        }
    }

    /// The installed release a requirement selects: the exact version when it
    /// is installed, the maximum installed version for `Latest`; an error
    /// exactly when no installed version satisfies the requirement.
    pub fn load(&self, cfg: &JorupConfig, req: &VersionReq) -> (r: Result<Release, ReleaseError>)
        ensures
            r is Ok ==> spec_selects(self.installed@, *req, r->Ok_0.version)
                && r->Ok_0.dir@ == cfg.home_dir@ + "/release/"@ + spec_version_str(
                r->Ok_0.version,
            ),
            r is Ok <==> exists|i: int|
                0 <= i < self.installed@.len() && req.spec_matches(#[trigger] self.installed@[i]),
            r is Err ==> r->Err_0 == ReleaseError::NoCompatibleReleaseInstalled(*req),
    {
        match find_best_match(&self.installed, req) {
            Some(v) => {
                proof {
                    lemma_selects_gives_match(self.installed@, *req, v);
                }
                Ok(Release::new(cfg, v))
            },
            None => Err(ReleaseError::NoCompatibleReleaseInstalled(*req)),
        }
    }

    /// Forget an installed version: removal is always exact, never by
    /// requirement. Fails exactly when the version is not installed, and
    /// then changes nothing.
    pub fn remove(&mut self, v: &Version) -> (r: Result<(), ReleaseError>)
        requires
            old(self).wf(),
        ensures
            final(self).wf(),
            r is Ok <==> old(self).installed@.contains(*v),
            r is Err ==> final(self).installed@ == old(self).installed@ && r->Err_0
                == ReleaseError::ReleaseNotInstalled(*v),
            forall|x: Version|
                final(self).installed@.contains(x) <==> (old(self).installed@.contains(x) && x
                    != *v),
    {
        let ghost pre = self.installed@;
        let mut i: usize = 0;
        while i < self.installed.len()
            invariant
                i <= self.installed@.len(),
                self.installed@ == pre,
                pre == old(self).installed@,
                forall|a: int, b: int| 0 <= a < b < pre.len() ==> pre[a] != pre[b],
                forall|j: int| 0 <= j < i ==> pre[j] != *v,
            decreases self.installed@.len() - i,
        {
            if self.installed[i] == *v {
                let ghost iv = i as int;
                self.installed.remove(i);
                proof {
                    assert(self.installed@ == pre.remove(iv));
                    assert(self.installed@ =~= pre.subrange(0, iv) + pre.subrange(
                        iv + 1,
                        pre.len() as int,
                    ));
                    assert(pre.contains(*v)) by {
                        assert(pre[iv] == *v);
                    }
                    assert forall|a: int, b: int|
                        0 <= a < b < self.installed@.len() implies self.installed@[a]
                        != self.installed@[b] by {
                        let a2: int = if a < iv {
                            a
                        } else {
                            a + 1
                        };
                        let b2: int = if b < iv {
                            b
                        } else {
                            b + 1
                        };
                        assert(self.installed@[a] == pre[a2]);
                        assert(self.installed@[b] == pre[b2]);
                    }
                    assert forall|x: Version|
                        self.installed@.contains(x) <==> (pre.contains(x) && x != *v) by {
                        if self.installed@.contains(x) {
                            let k = choose|k: int|
                                0 <= k < self.installed@.len() && self.installed@[k] == x;
                            let k2: int = if k < iv {
                                k
                            } else {
                                k + 1
                            };
                            assert(pre[k2] == x);
                            assert(pre.contains(x));
                            assert(x != *v);
                        }
                        if pre.contains(x) && x != *v {
                            let k = choose|k: int| 0 <= k < pre.len() && pre[k] == x;
                            if k < iv {
                                assert(self.installed@[k] == x);
                            } else {
                                assert(k != iv);
                                assert(self.installed@[k - 1] == x);
                            }
                            assert(self.installed@.contains(x));
                        }
                    }
                }
                return Ok(());
            }
            i = i + 1;
        }
        proof {
            if pre.contains(*v) {
                let k = choose|k: int| 0 <= k < pre.len() && pre[k] == *v;
                assert(false);
            }
        }
        Err(ReleaseError::ReleaseNotInstalled(*v))
    }

    /// The installed versions. The order carries no meaning to the engine.
    pub fn list(&self) -> (r: Vec<Version>)
        ensures
            r@ == self.installed@,
    {
        let mut r: Vec<Version> = Vec::new();
        let mut i: usize = 0;
        while i < self.installed.len()
            invariant
                i <= self.installed@.len(),
                r@ == self.installed@.take(i as int),
            decreases self.installed@.len() - i,
        {
            r.push(self.installed[i]);
            i = i + 1;
            assert(r@ =~= self.installed@.take(i as int));
        }
        assert(self.installed@.take(self.installed@.len() as int) =~= self.installed@);
        r
    }
}

/// A selected version is itself a match: selection never invents a version.
pub proof fn lemma_selects_gives_match(candidates: Seq<Version>, req: VersionReq, v: Version)
    requires
        spec_selects(candidates, req, v),
    ensures
        exists|i: int| 0 <= i < candidates.len() && req.spec_matches(#[trigger] candidates[i]),
{
    match req {
        VersionReq::Latest => {
            let k = choose|k: int| 0 <= k < candidates.len() && candidates[k] == v;
            assert(req.spec_matches(candidates[k]));
        },
        VersionReq::Exact(x) => {
            let k = choose|k: int| 0 <= k < candidates.len() && candidates[k] == x;
            assert(req.spec_matches(candidates[k]));
        },
    }
}

} // verus!
