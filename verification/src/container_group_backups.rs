//! Container group volume backups: retention default, records, and the
//! ordered set of host paths a backup archives.
use vstd::prelude::*;

use crate::container_declarative::ContainerGroupSpec;
use crate::text::{lemma_seq_lt_total, owned, seq_lt, str_eq, str_lt, views};

verus! {

pub fn default_retention_days() -> (r: u32)
    ensures
        r == 30,
{
    30
}

#[derive(Debug, Clone, Copy, PartialEq, Eq, Structural)]
pub enum BackupStatus {
    Completed,
    Failed,
}

/// A backup of a group's host volumes. Entry `i` of the archive restores
/// onto `volume_paths[i]`. Times are Unix seconds.
#[derive(Debug, Clone)]
pub struct ContainerGroupBackup {
    pub id: String,
    pub container_group_name: String,
    pub tenant: Option<String>,
    pub volume_paths: Vec<String>,
    pub size_bytes: u64,
    pub status: BackupStatus,
    pub error: Option<String>,
    pub archive_path: String,
    pub created: i64,
    pub retention_days: u32,
    pub expires_at: i64,
}

#[derive(Debug, Clone)]
pub struct CreateContainerGroupBackupRequest {
    pub container_group_name: String,
    pub retention_days: u32,
}

#[derive(Debug, Clone)]
pub struct RestoreResult {
    pub container_group_name: String,
    pub restored_paths: Vec<String>,
    pub warnings: Vec<String>,
}

/// Strictly increasing in string order.
pub open spec fn strictly_sorted(s: Seq<Seq<char>>) -> bool {
    forall|i: int, j: int| 0 <= i < j < s.len() ==> seq_lt(#[trigger] s[i], #[trigger] s[j])
}

/// Some container mounts host path `p`.
pub open spec fn mounted(spec: ContainerGroupSpec, p: Seq<char>) -> bool {
    exists|c: int, m: int|
        0 <= c < spec.containers@.len() && 0 <= m < spec.containers@[c].volume_mounts@.len()
            && (#[trigger] spec.containers@[c].volume_mounts@[m]).host@ == p
}

fn insert_sorted(out: &mut Vec<String>, p: &str)
    requires
        strictly_sorted(views(old(out)@)),
    ensures
        strictly_sorted(views(final(out)@)),
        forall|x: Seq<char>| views(final(out)@).contains(x) <==> (views(old(out)@).contains(x) || x == p@),
{
    let ghost before = views(out@);
    let mut j: usize = 0;
    while j < out.len() && str_lt(out[j].as_str(), p)
        invariant
            j <= out@.len(),
            views(out@) == before,
            strictly_sorted(before),
            forall|k: int| 0 <= k < j ==> seq_lt(#[trigger] before[k], p@),
        decreases out.len() - j,
    {
        j = j + 1;
    }
    if j < out.len() && str_eq(out[j].as_str(), p) {
        proof {
            assert(before[j as int] == p@);
            assert forall|x: Seq<char>| views(out@).contains(x) <==> (before.contains(x) || x == p@) by {
                if x == p@ {
                    assert(before[j as int] == x);
                }
            }
        }
        return;
    }
    proof {
        if j < before.len() {
            assert(!seq_lt(before[j as int], p@));
            assert(before[j as int] != p@);
            lemma_seq_lt_total(before[j as int], p@);
            assert forall|k: int| j <= k < before.len() implies seq_lt(p@, #[trigger] before[k]) by {
                if k > j {
                    crate::ai::scheduler::lemma_seq_lt_transitive(p@, before[j as int], before[k]);
                }
            }
        }
    }
    out.insert(j, owned(p));
    proof {
        let after = views(out@);
        assert(after =~= before.subrange(0, j as int).push(p@) + before.subrange(j as int, before.len() as int));
        assert forall|a: int, b: int| 0 <= a < b < after.len() implies seq_lt(#[trigger] after[a], #[trigger] after[b]) by {
            if a < j && b == j {
            } else if a < j && b > j {
                assert(after[b] == before[b - 1]);
            } else if a == j {
                assert(after[b] == before[b - 1]);
            } else if a > j {
                assert(after[a] == before[a - 1]);
                assert(after[b] == before[b - 1]);
            }
        }
        assert forall|x: Seq<char>| after.contains(x) <==> (before.contains(x) || x == p@) by {
            if after.contains(x) {
                let i = choose|i: int| 0 <= i < after.len() && after[i] == x;
                if i < j {
                    assert(before[i] == x);
                } else if i > j {
                    assert(before[i - 1] == x);
                }
            }
            if before.contains(x) {
                let i = choose|i: int| 0 <= i < before.len() && before[i] == x;
                if i < j {
                    assert(after[i] == x);
                } else {
                    assert(after[i + 1] == x);
                }
            }
            if x == p@ {
                assert(after[j as int] == x);
            }
        }
    }
}

/// The host directories to archive: every container's mounted host path,
/// each once, in increasing string order, so that backing up the same
/// group lays the archive out the same way.
pub fn collect_volume_paths(spec: &ContainerGroupSpec) -> (r: Vec<String>)
    ensures
        strictly_sorted(views(r@)),
        forall|p: Seq<char>| views(r@).contains(p) <==> mounted(*spec, p),
{
    let mut out: Vec<String> = Vec::new();
    let mut c: usize = 0;
    while c < spec.containers.len()
        invariant
            c <= spec.containers@.len(),
            strictly_sorted(views(out@)),
            forall|p: Seq<char>|
                views(out@).contains(p) <==> exists|ci: int, m: int|
                    0 <= ci < c && 0 <= m < spec.containers@[ci].volume_mounts@.len()
                        && (#[trigger] spec.containers@[ci].volume_mounts@[m]).host@ == p,
        decreases spec.containers.len() - c,
    {
        let mut m: usize = 0;
        while m < spec.containers[c].volume_mounts.len()
            invariant
                c < spec.containers@.len(),
                m <= spec.containers@[c as int].volume_mounts@.len(),
                strictly_sorted(views(out@)),
                forall|p: Seq<char>|
                    views(out@).contains(p) <==> (exists|ci: int, mi: int|
                        0 <= ci < c && 0 <= mi < spec.containers@[ci].volume_mounts@.len()
                            && (#[trigger] spec.containers@[ci].volume_mounts@[mi]).host@ == p) || (
                    exists|mi: int|
                        0 <= mi < m && (#[trigger] spec.containers@[c as int].volume_mounts@[mi]).host@
                            == p),
            decreases spec.containers@[c as int].volume_mounts@.len() - m,
        {
            insert_sorted(&mut out, spec.containers[c].volume_mounts[m].host.as_str());
            m = m + 1;
        }
        c = c + 1;
    }
    out
}

} // verus!
