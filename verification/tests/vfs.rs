use forge_core::vfs::{essential_mounts, MS_NODEV, MS_NOEXEC, MS_NOSUID, MS_STRICTATIME};

#[test]
fn kernel_filesystems_come_first() {
    let m = essential_mounts();
    assert_eq!(m.len(), 8);
    assert_eq!(m[0].target, "/proc");
    assert_eq!(m[0].flags, MS_NOSUID | MS_NOEXEC | MS_NODEV);
    assert_eq!(m[2].fstype, "devtmpfs");
    assert_eq!(m[2].flags, MS_NOSUID | MS_STRICTATIME);
    assert_eq!(m[6].data.as_deref(), Some("newinstance,ptmxmode=0666,mode=620,gid=5"));
    assert!(m[7].source.is_none());
    assert_eq!(m[7].fstype, "selinuxfs");
    assert_eq!(MS_NOSUID as u64, libc::MS_NOSUID as u64);
    assert_eq!(MS_STRICTATIME as u64, libc::MS_STRICTATIME as u64);
}
