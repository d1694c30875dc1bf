use ocard::volume::{mac_mount_entry, windows_volume};
use ocard::volume::{diff_volumes, linux_mount_entry, Volume, VolumeEvent};

fn vol(name: &str, mp: &str) -> Volume {
    Volume {
        name: name.to_string(),
        mount_point: mp.to_string(),
        device: None,
        total_bytes: 0,
        available_bytes: 0,
    }
}

#[test]
fn diff_detects_insert_and_remove() {
    let v1 = vol("A", "/vol/A");
    let v2 = vol("B", "/vol/B");
    let events = diff_volumes(&[], &[v1.clone()]);
    assert_eq!(events.len(), 1);
    assert!(matches!(events[0], VolumeEvent::Inserted(_)));

    let events = diff_volumes(&[v1.clone()], &[v2]);
    assert_eq!(events.len(), 2);
    assert!(events.iter().any(|e| matches!(e, VolumeEvent::Removed { .. })));
    assert!(events.iter().any(|e| matches!(e, VolumeEvent::Inserted(_))));

    let events = diff_volumes(&[v1.clone()], &[v1]);
    assert!(events.is_empty());
}

#[test]
fn diff_orders_inserts_before_removals() {
    let a = vol("A", "/vol/A");
    let b = vol("B", "/vol/B");
    let c = vol("C", "/vol/C/");
    let events = diff_volumes(&[a.clone(), vol("C", "/vol/C")], &[c.clone(), b.clone()]);
    assert_eq!(events.len(), 2);
    assert_eq!(events[0], VolumeEvent::Inserted(b));
    assert_eq!(
        events[1],
        VolumeEvent::Removed { name: "A".to_string(), mount_point: "/vol/A".to_string() }
    );
}

#[test]
fn linux_mount_lines() {
    let (name, mp, dev) = linux_mount_entry("/dev/sdb1 /media/user/CARD vfat rw 0 0").unwrap();
    assert_eq!(name, "CARD");
    assert_eq!(mp, "/media/user/CARD");
    assert_eq!(dev, "/dev/sdb1");
    assert!(linux_mount_entry("/dev/loop0 /media/x squashfs ro 0 0").is_none());
    assert!(linux_mount_entry("proc /mnt/proc proc rw 0 0").is_none());
    assert!(linux_mount_entry("/dev/sda1 / ext4 rw 0 0").is_none());
    assert!(linux_mount_entry("  /dev/sdc1\t/run/media/u/X  ").is_some());
    assert!(linux_mount_entry("/dev/sdc1").is_none());
    assert!(linux_mount_entry("").is_none());
}

#[test]
fn mac_mount_lines() {
    let (name, mp, dev) =
        mac_mount_entry("/dev/disk4s1 on /Volumes/Untitled (msdos, local, nodev, nosuid, noowners)").unwrap();
    assert_eq!(name, "Untitled");
    assert_eq!(mp, "/Volumes/Untitled");
    assert_eq!(dev, "/dev/disk4s1");
    assert!(mac_mount_entry("/dev/disk1s1 on /Volumes/Macintosh HD (apfs)").is_some());
    assert!(mac_mount_entry("/dev/disk1s5 on /Volumes/MacOS Data (apfs)").is_none());
    assert!(mac_mount_entry("/dev/disk2s3 on /Volumes/Recovery (apfs)").is_none());
    assert!(mac_mount_entry("/dev/disk1s1 on / (apfs)").is_none());
    let (_, mp2, _) = mac_mount_entry("/dev/disk5 on /Volumes/A on B (hfs)").unwrap();
    assert_eq!(mp2, "/Volumes/A");
}

#[test]
fn windows_drive_lines() {
    let v = windows_volume("E:|CARD|31914983424|1048576").unwrap();
    assert_eq!(v.name, "CARD");
    assert_eq!(v.mount_point, "E:");
    assert_eq!(v.device, Some("E:".to_string()));
    assert_eq!(v.total_bytes, 31914983424);
    assert_eq!(v.available_bytes, 1048576);
    let w = windows_volume("F:\\||+12|x").unwrap();
    assert_eq!(w.name, "F:\\");
    assert_eq!(w.mount_point, "F:");
    assert_eq!(w.total_bytes, 12);
    assert_eq!(w.available_bytes, 0);
    let big = windows_volume("G:|G|18446744073709551616").unwrap();
    assert_eq!(big.total_bytes, 0);
    assert!(windows_volume("E:").is_none());
}
