use ardor_mouse::session::{Link, Notice, NoticeKind};
use ardor_mouse::status::{
    battery_caption, link_caption, notice_tone, placeholder_text, status, BatteryIcon, Status,
    Tone,
};
use ardor_mouse::transport::Battery;

#[test]
fn link_captions() {
    let (t, s) = link_caption(&Link::Ready, "2.4G-приёмник · hidraw3");
    assert_eq!((t, s.as_str()), (Tone::Good, "2.4G-приёмник · hidraw3"));
    assert_eq!(link_caption(&Link::Asleep, "x"), (Tone::Warn, "Мышь спит — пошевелите ей".to_string()));
    assert_eq!(link_caption(&Link::Searching, "x"), (Tone::Idle, "Поиск мыши…".to_string()));
    assert_eq!(link_caption(&Link::NotFound, "x"), (Tone::Bad, "Приёмник не найден".to_string()));
    assert_eq!(
        link_caption(&Link::NoAccess("/dev/hidraw3".into()), "x"),
        (Tone::Bad, "Нет доступа к устройству".to_string())
    );
    assert_eq!(link_caption(&Link::Error("e".into()), "x"), (Tone::Bad, "Ошибка связи".to_string()));
    assert_eq!(Tone::Good.word(), "ok");
    assert_eq!(Tone::Warn.word(), "warn");
    assert_eq!(Tone::Idle.word(), "idle");
    assert_eq!(Tone::Bad.word(), "bad");
    assert_eq!(Tone::Info.word(), "info");
}

#[test]
fn battery_captions() {
    assert_eq!(
        battery_caption(Battery { percent: 76, charging: false }),
        (BatteryIcon::Full, Tone::Good, "76%".to_string())
    );
    assert_eq!(
        battery_caption(Battery { percent: 15, charging: false }),
        (BatteryIcon::Low, Tone::Bad, "15%".to_string())
    );
    assert_eq!(
        battery_caption(Battery { percent: 16, charging: false }),
        (BatteryIcon::Full, Tone::Good, "16%".to_string())
    );
    assert_eq!(
        battery_caption(Battery { percent: 5, charging: true }),
        (BatteryIcon::Charging, Tone::Good, "5% · заряжается".to_string())
    );
    assert_eq!(battery_caption(Battery { percent: 100, charging: false }).2, "100%");
    assert_eq!(battery_caption(Battery { percent: 0, charging: false }).2, "0%");
}

#[test]
fn status_line_priority() {
    let n = Notice::new(NoticeKind::Success, "Сохранено".to_string());
    assert!(matches!(status(Some("Запись".into()), true, Some(n.clone())), Status::Busy(t) if t == "Запись"));
    assert!(matches!(status(None, true, Some(n.clone())), Status::Unsaved));
    assert!(matches!(status(None, false, Some(n.clone())), Status::Notice(m) if m == n));
    assert!(matches!(status(None, false, None), Status::Blank));
    assert_eq!(notice_tone(NoticeKind::Info), Tone::Info);
    assert_eq!(notice_tone(NoticeKind::Success), Tone::Good);
    assert_eq!(notice_tone(NoticeKind::Error), Tone::Bad);
}

#[test]
fn placeholder_texts() {
    let (t, h, x) = placeholder_text(&Link::Searching);
    assert_eq!((t, h.as_str(), x), ("Подключение к мыши…", "Читаю настройки из памяти мыши", None));
    assert_eq!(placeholder_text(&Link::Ready).0, "Подключение к мыши…");
    let (t, h, x) = placeholder_text(&Link::NotFound);
    assert_eq!(t, "Приёмник не найден");
    assert_eq!(
        h,
        "Вставьте 2.4G-приёмник или подключите мышь кабелем.\nБез мыши интерфейс можно посмотреть так:  ardor_mouse --simulate"
    );
    assert!(x.is_none());
    let (t, h, x) = placeholder_text(&Link::NoAccess("/dev/hidraw3".into()));
    assert_eq!(t, "Нет доступа к устройству");
    assert_eq!(h, "У пользователя нет прав на /dev/hidraw3. Установите udev-правило и переподключите приёмник:");
    assert_eq!(
        x.as_deref(),
        Some("sudo cp 99-ardor-mouse.rules /etc/udev/rules.d/\nsudo udevadm control --reload-rules && sudo udevadm trigger")
    );
    let (t, _, x) = placeholder_text(&Link::Asleep);
    assert_eq!((t, x), ("Мышь спит", None));
    let (t, h, x) = placeholder_text(&Link::Error("сбой".into()));
    assert_eq!((t, h.as_str(), x), ("Ошибка связи", "сбой", None));
}
