use neutron_vfs::fs::{SupportedFS, Violation, VFS};

fn table(points: &[&str]) -> VFS {
    VFS::new(points.iter().map(|p| SupportedFS::new(p.to_string())).collect())
}

#[test]
fn root_alone_is_valid() {
    assert!(table(&["/"]).check_valid());
}

#[test]
fn one_root_and_distinct_mounts_is_valid() {
    assert!(table(&["/", "/home", "/mnt/usb", "/boot"]).check_valid());
}

#[test]
fn root_need_not_come_first() {
    assert!(table(&["/home", "/boot", "/"]).check_valid());
}

#[test]
fn empty_table_is_invalid() {
    let vfs = table(&[]);
    assert_eq!(vfs.len(), 0);
    assert!(!vfs.check_valid());
}

#[test]
fn table_without_root_is_invalid() {
    assert!(!table(&["/home", "/boot"]).check_valid());
}

#[test]
fn table_with_two_roots_is_invalid() {
    assert!(!table(&["/", "/home", "/"]).check_valid());
    assert!(!table(&["/", "/"]).check_valid());
}

#[test]
fn adjacent_duplicate_is_invalid() {
    assert!(!table(&["/", "/home", "/home"]).check_valid());
}

#[test]
fn distant_duplicate_is_invalid() {
    assert!(!table(&["/", "/home", "/boot", "/home"]).check_valid());
    assert!(!table(&["/zz", "/", "/a", "/m", "/zz"]).check_valid());
    assert!(!table(&["/b", "/a", "/", "/c", "/a", "/d"]).check_valid());
}

#[test]
fn verdict_ignores_order() {
    let orders: [[&str; 3]; 6] = [
        ["/", "/a", "/b"],
        ["/", "/b", "/a"],
        ["/a", "/", "/b"],
        ["/a", "/b", "/"],
        ["/b", "/", "/a"],
        ["/b", "/a", "/"],
    ];
    for order in orders.iter() {
        assert!(table(order).check_valid());
    }
    let orders: [[&str; 3]; 3] = [["/", "/a", "/a"], ["/a", "/", "/a"], ["/a", "/a", "/"]];
    for order in orders.iter() {
        assert!(!table(order).check_valid());
    }
}

#[test]
fn checking_twice_gives_the_same_verdict() {
    let good = table(&["/", "/home"]);
    assert!(good.check_valid());
    assert!(good.check_valid());
    assert_eq!(good.len(), 2);
    let bad = table(&["/home", "/home"]);
    assert!(!bad.check_valid());
    assert!(!bad.check_valid());
}

#[test]
fn mount_points_are_compared_as_written() {
    // "/a" and "/a/" are different strings, so they are no duplicates.
    assert!(table(&["/", "/a", "/a/"]).check_valid());
    // "//" is not the root path.
    assert!(!table(&["//", "/a"]).check_valid());
    assert!(table(&["/", "//"]).check_valid());
}

#[test]
fn mount_points_beyond_ascii() {
    assert!(table(&["/", "/données", "/данные"]).check_valid());
    assert!(!table(&["/", "/données", "/данные", "/données"]).check_valid());
}

#[test]
fn descriptor_keeps_its_mount_point() {
    let fs = SupportedFS::new("/mnt/usb".to_string());
    assert_eq!(fs.mount_point(), "/mnt/usb");
    assert!(!fs.is_root());
    assert!(SupportedFS::new("/".to_string()).is_root());
    assert!(!SupportedFS::new("".to_string()).is_root());
    assert!(!SupportedFS::new("/ ".to_string()).is_root());
}

#[test]
fn descriptors_are_equal_by_mount_point() {
    let a = SupportedFS::new("/a".to_string());
    let b = SupportedFS::new("/b".to_string());
    assert_eq!(a, SupportedFS::new("/a".to_string()));
    assert_ne!(a, b);
    assert!(a < b);
}

#[test]
fn open_returns() {
    neutron_vfs::open();
}

#[test]
fn validate_names_the_broken_rule() {
    assert_eq!(table(&["/", "/home", "/boot"]).validate(), Ok(()));
    assert_eq!(table(&[]).validate(), Err(Violation::NoRoot));
    assert_eq!(table(&["/home", "/home"]).validate(), Err(Violation::NoRoot));
    assert_eq!(table(&["/", "/home", "/"]).validate(), Err(Violation::MultipleRoots));
    assert_eq!(
        table(&["/", "/", "/home", "/home"]).validate(),
        Err(Violation::MultipleRoots)
    );
    assert_eq!(
        table(&["/home", "/", "/boot", "/home"]).validate(),
        Err(Violation::DuplicateMountPoint)
    );
}

#[test]
fn descriptors_are_ordered_by_mount_point() {
    let d = |p: &str| SupportedFS::new(p.to_string());
    assert!(d("/") < d("/a"));
    assert!(d("/a") < d("/a/b"));
    assert!(d("/a/b") < d("/b"));
    assert!(d("/b") > d("/a/b"));
    assert!(d("/B") < d("/a"));
    assert!(d("/z") < d("/é"));
    assert!(d("/a") <= d("/a"));
    assert!(d("/a") >= d("/a"));
    assert!(!(d("/a") < d("/a")));
    assert_eq!(d("/a").partial_cmp(&d("/b")), Some(std::cmp::Ordering::Less));
    assert_eq!(d("/b").partial_cmp(&d("/a")), Some(std::cmp::Ordering::Greater));
    assert_eq!(d("/a").partial_cmp(&d("/a")), Some(std::cmp::Ordering::Equal));
    assert_eq!(d("/a").cmp(&d("/b")), std::cmp::Ordering::Less);
}
