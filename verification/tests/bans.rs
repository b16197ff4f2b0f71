use hat::bans::{BanList, Ip};

#[test]
fn bans_are_found_until_they_are_dropped() {
    let mut list = BanList::new();
    assert_eq!(list.deadline(Ip::V4(1)), None);
    list.insert(Ip::V4(1), 100);
    list.insert(Ip::V6(1), 50);
    assert_eq!(list.deadline(Ip::V4(1)), Some(100));
    assert_eq!(list.deadline(Ip::V6(1)), Some(50));
    list.insert(Ip::V4(1), 200);
    assert_eq!(list.deadline(Ip::V4(1)), Some(200));
    list.retain(50);
    assert_eq!(list.deadline(Ip::V6(1)), None);
    assert_eq!(list.deadline(Ip::V4(1)), Some(200));
    list.retain(200);
    assert_eq!(list.deadline(Ip::V4(1)), None);
}
