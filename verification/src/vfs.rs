//! The kernel filesystems the init process mounts before anything else runs.
use vstd::prelude::*;
use crate::text::str_to_string;

verus! {

/// `MS_NOSUID`, as `mount(2)` numbers it on Linux.
pub const MS_NOSUID: u64 = 2;
/// `MS_NODEV`, as `mount(2)` numbers it on Linux.
pub const MS_NODEV: u64 = 4;
/// `MS_NOEXEC`, as `mount(2)` numbers it on Linux.
pub const MS_NOEXEC: u64 = 8;
/// `MS_STRICTATIME`, as `mount(2)` numbers it on Linux.
pub const MS_STRICTATIME: u64 = 16777216;

/// One early mount: its source (none for `selinuxfs`), target, filesystem type,
/// flags and data.
#[derive(Debug)]
pub struct EarlyMount {
    pub source: Option<String>,
    pub target: String,
    pub fstype: String,
    pub flags: u64,
    pub data: Option<String>,
}

/// The view of an early mount.
pub open spec fn early_mount_view(m: EarlyMount) -> (Option<Seq<char>>, Seq<char>, Seq<char>, u64, Option<Seq<char>>) {
    (
        match m.source {
            Some(s) => Some(s@),
            None => None,
        },
        m.target@,
        m.fstype@,
        m.flags,
        match m.data {
            Some(d) => Some(d@),
            None => None,
        },
    )
}

/// The kernel API filesystems, in the order they are mounted: `/proc`, `/sys`, `/dev`,
/// `/run`, `/dev/shm`, `/tmp`, the `devpts` instance on `/dev/pts`, and `selinuxfs`.
pub open spec fn essential_mount_table() -> Seq<(Option<Seq<char>>, Seq<char>, Seq<char>, u64, Option<Seq<char>>)> {
    let api = (MS_NOSUID | MS_NOEXEC) | MS_NODEV;
    seq![
        (Some("proc"@), "/proc"@, "proc"@, api, None),
        (Some("sysfs"@), "/sys"@, "sysfs"@, api, None),
        (Some("devtmpfs"@), "/dev"@, "devtmpfs"@, MS_NOSUID | MS_STRICTATIME, None),
        (Some("tmpfs"@), "/run"@, "tmpfs"@, MS_NOSUID | MS_NODEV, None),
        (Some("tmpfs"@), "/dev/shm"@, "tmpfs"@, (MS_NOSUID | MS_NODEV) | MS_STRICTATIME, None),
        (Some("tmpfs"@), "/tmp"@, "tmpfs"@, MS_NOSUID | MS_NODEV, None),
        (Some("devpts"@), "/dev/pts"@, "devpts"@, MS_NOSUID | MS_NOEXEC, Some("newinstance,ptmxmode=0666,mode=620,gid=5"@)),
        (None, "/sys/fs/selinux"@, "selinuxfs"@, 0u64, None),
    ]
}

fn early(source: Option<&str>, target: &str, fstype: &str, flags: u64, data: Option<&str>) -> (r: EarlyMount)
    ensures
        early_mount_view(r) == (
            match source {
                Some(s) => Some(s@),
                None => None::<Seq<char>>,
            },
            target@,
            fstype@,
            flags,
            match data {
                Some(d) => Some(d@),
                None => None::<Seq<char>>,
            },
        ),
{
    EarlyMount {
        source: match source {
            Some(s) => Some(str_to_string(s)),
            None => None,
        },
        target: str_to_string(target),
        fstype: str_to_string(fstype),
        flags,
        data: match data {
            Some(d) => Some(str_to_string(d)),
            None => None,
        },
    }
}

/// The early mounts, as `essential_mount_table` lists them.
pub fn essential_mounts() -> (r: Vec<EarlyMount>)
    ensures
        r@.map_values(|m: EarlyMount| early_mount_view(m)) == essential_mount_table(),
{
    let api = MS_NOSUID | MS_NOEXEC | MS_NODEV;
    let mut r: Vec<EarlyMount> = Vec::new();
    r.push(early(Some("proc"), "/proc", "proc", api, None));
    r.push(early(Some("sysfs"), "/sys", "sysfs", api, None));
    r.push(early(Some("devtmpfs"), "/dev", "devtmpfs", MS_NOSUID | MS_STRICTATIME, None));
    r.push(early(Some("tmpfs"), "/run", "tmpfs", MS_NOSUID | MS_NODEV, None));
    r.push(early(Some("tmpfs"), "/dev/shm", "tmpfs", MS_NOSUID | MS_NODEV | MS_STRICTATIME, None));
    r.push(early(Some("tmpfs"), "/tmp", "tmpfs", MS_NOSUID | MS_NODEV, None));
    r.push(early(Some("devpts"), "/dev/pts", "devpts", MS_NOSUID | MS_NOEXEC, Some("newinstance,ptmxmode=0666,mode=620,gid=5")));
    r.push(early(None, "/sys/fs/selinux", "selinuxfs", 0, None));
    assert(r@.map_values(|m: EarlyMount| early_mount_view(m)) =~= essential_mount_table());
    r
}

} // verus!
