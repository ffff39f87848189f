use ardor_mouse::protocol::buttons::ButtonAction;
use ardor_mouse::protocol::eeprom::{DeviceConfig, PollingRate};
use ardor_mouse::session::{
    is_dirty, open_failure_link, plan_apply, read_failure_notice, read_notice, recovery,
    replaces_edit, write_failure_notice, write_progress, written_notice, ApplyPlan, Link,
    NoticeKind, Recovery,
};
use ardor_mouse::transport::Error;

#[test]
fn failures_and_links() {
    assert_eq!(recovery(&Error::NotFound), Recovery::Reconnect);
    let io: Error = std::io::Error::new(std::io::ErrorKind::Other, "x").into();
    assert_eq!(recovery(&io), Recovery::Reconnect);
    assert_eq!(recovery(&Error::Timeout { cmd: 3 }), Recovery::Asleep);
    assert_eq!(recovery(&Error::Rejected { cmd: 7, status: 1 }), Recovery::Keep);
    assert_eq!(recovery(&Error::Permission("p".into())), Recovery::Keep);

    assert_eq!(open_failure_link(&Error::NotFound), Link::NotFound);
    assert_eq!(open_failure_link(&Error::Permission("/dev/hidraw2".into())), Link::NoAccess("/dev/hidraw2".into()));
    assert_eq!(
        open_failure_link(&Error::Timeout { cmd: 0x03 }),
        Link::Error("мышь не ответила на команду 0x03 — пошевелите ей".into())
    );
}

#[test]
fn read_and_write_notices() {
    let n = read_notice(&vec!["LOD", "ripple"], false).unwrap();
    assert_eq!(n.kind, NoticeKind::Error);
    assert_eq!(n.text, "Повреждённые поля заменены заводскими: LOD, ripple");
    let n = read_notice(&vec![], true).unwrap();
    assert_eq!((n.kind, n.text.as_str()), (NoticeKind::Info, "Настройки перечитаны с мыши"));
    assert!(read_notice(&vec![], false).is_none());

    let n = read_failure_notice(&Error::NotFound);
    assert_eq!((n.kind, n.text.as_str()), (NoticeKind::Error, "Не удалось прочитать: приёмник мыши не найден"));
    let n = write_failure_notice(&Error::Rejected { cmd: 7, status: 0x1F });
    assert_eq!(n.text, "Запись не удалась: мышь отклонила команду 0x07 (статус 0x1F)");

    assert_eq!(write_progress(0, 4, "частота опроса"), "Запись: частота опроса (1/4)");
    assert_eq!(write_progress(11, 12, "x"), "Запись: x (12/12)");
    assert_eq!(write_progress(99, 3, "x"), "Запись: x (100/3)");
}

#[test]
fn applying_and_dirty_state() {
    let old = DeviceConfig::default();
    let ApplyPlan::Unchanged(n) = plan_apply(&old, &old) else { panic!() };
    assert_eq!((n.kind, n.text.as_str()), (NoticeKind::Info, "Изменений нет"));

    let mut bad = old.clone();
    bad.buttons[0] = ButtonAction::Right;
    let ApplyPlan::Refuse(n) = plan_apply(&bad, &old) else { panic!() };
    assert_eq!(n.kind, NoticeKind::Error);
    assert_eq!(n.text, "Хотя бы одна кнопка должна быть назначена как «Левый клик»");

    let mut new = old.clone();
    new.polling = PollingRate::Hz500;
    new.debounce_ms = 8;
    let ApplyPlan::Write(rs) = plan_apply(&new, &old) else { panic!() };
    assert_eq!(rs.len(), 2);
    let n = written_notice(&rs);
    assert_eq!(n.kind, NoticeKind::Success);
    assert_eq!(n.text, format!("Сохранено в мышь: {}, {}", rs[0].name, rs[1].name));

    assert!(!is_dirty(&None, &new));
    assert!(!is_dirty(&Some(new.clone()), &new));
    assert!(is_dirty(&Some(old.clone()), &new));
    assert!(replaces_edit(true, &Some(old.clone()), &new));
    assert!(!replaces_edit(false, &Some(old.clone()), &new));
    assert!(replaces_edit(false, &Some(new.clone()), &new));
    assert!(replaces_edit(false, &None, &new));
}
