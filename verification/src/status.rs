//! What the window shows of the session: the link caption, the battery
//! caption and the status line, with the tone each is drawn in.
use vstd::prelude::*;
use crate::session::{decimal, push_decimal, Link, Notice, NoticeKind};
use crate::transport::Battery;

verus! {

/// Tone of an indicator.
#[derive(Clone, Copy, Debug, PartialEq, Eq, Structural)]
pub enum Tone {
    Good,
    Warn,
    Idle,
    Bad,
    Info,
}

impl Tone {
    /// Style suffix of the tone.
    pub fn word(self) -> (r: &'static str)
        ensures
            r@ == match self {
                Tone::Good => "ok"@,
                Tone::Warn => "warn"@,
                Tone::Idle => "idle"@,
                Tone::Bad => "bad"@,
                Tone::Info => "info"@,
            },
    {
        match self {
            Tone::Good => "ok",
            Tone::Warn => "warn",
            Tone::Idle => "idle",
            Tone::Bad => "bad",
            Tone::Info => "info",
        }
    }
}

/// Caption of the link indicator: the device name once ready, else what is
/// wrong.
pub fn link_caption(link: &Link, device_name: &str) -> (r: (Tone, String))
    ensures
        match link {
            Link::Ready => r.0 == Tone::Good && r.1@ == device_name@,
            Link::Asleep => r.0 == Tone::Warn && r.1@ == "Мышь спит — пошевелите ей"@,
            Link::Searching => r.0 == Tone::Idle && r.1@ == "Поиск мыши…"@,
            Link::NotFound => r.0 == Tone::Bad && r.1@ == "Приёмник не найден"@,
            Link::NoAccess(_) => r.0 == Tone::Bad && r.1@ == "Нет доступа к устройству"@,
            Link::Error(_) => r.0 == Tone::Bad && r.1@ == "Ошибка связи"@,
        },
{
    match link {
        Link::Ready => (Tone::Good, device_name.to_string()),
        Link::Asleep => (Tone::Warn, String::from_str("Мышь спит — пошевелите ей")),
        Link::Searching => (Tone::Idle, String::from_str("Поиск мыши…")),
        Link::NotFound => (Tone::Bad, String::from_str("Приёмник не найден")),
        Link::NoAccess(_) => (Tone::Bad, String::from_str("Нет доступа к устройству")),
        Link::Error(_) => (Tone::Bad, String::from_str("Ошибка связи")),
    }
}

/// Texts of the screen shown while no profile is read: title, hint and an
/// optional command block, by link state.
pub fn placeholder_text(link: &Link) -> (r: (&'static str, String, Option<String>))
    ensures
        match link {
            Link::Searching | Link::Ready => r.0@ == "Подключение к мыши…"@ && r.1@
                == "Читаю настройки из памяти мыши"@ && r.2 is None,
            Link::NotFound => r.0@ == "Приёмник не найден"@ && r.1@
                == "Вставьте 2.4G-приёмник или подключите мышь кабелем.\nБез мыши интерфейс можно посмотреть так:  ardor_mouse --simulate"@
                && r.2 is None,
            Link::NoAccess(path) => r.0@ == "Нет доступа к устройству"@ && r.1@ == "У пользователя нет прав на "@
                + path@ + ". Установите udev-правило и переподключите приёмник:"@ && (r.2 matches Some(
                c,
            ) && c@
                == "sudo cp 99-ardor-mouse.rules /etc/udev/rules.d/\nsudo udevadm control --reload-rules && sudo udevadm trigger"@),
            Link::Asleep => r.0@ == "Мышь спит"@ && r.1@
                == "Приёмник на связи, но мышь не отвечает. Пошевелите мышью или нажмите любую кнопку — настройки загрузятся автоматически."@
                && r.2 is None,
            Link::Error(e) => r.0@ == "Ошибка связи"@ && r.1@ == e@ && r.2 is None,
        },
{
    match link {
        Link::Searching | Link::Ready => (
            "Подключение к мыши…",
            String::from_str("Читаю настройки из памяти мыши"),
            None,
        ),
        Link::NotFound => (
            "Приёмник не найден",
            String::from_str(
                "Вставьте 2.4G-приёмник или подключите мышь кабелем.\nБез мыши интерфейс можно посмотреть так:  ardor_mouse --simulate",
            ),
            None,
        ),
        Link::NoAccess(path) => {
            let mut hint = String::from_str("У пользователя нет прав на ");
            hint.append(path.as_str());
            hint.append(". Установите udev-правило и переподключите приёмник:");
            (
                "Нет доступа к устройству",
                hint,
                Some(
                    String::from_str(
                        "sudo cp 99-ardor-mouse.rules /etc/udev/rules.d/\nsudo udevadm control --reload-rules && sudo udevadm trigger",
                    ),
                ),
            )
        },
        Link::Asleep => (
            "Мышь спит",
            String::from_str(
                "Приёмник на связи, но мышь не отвечает. Пошевелите мышью или нажмите любую кнопку — настройки загрузятся автоматически.",
            ),
            None,
        ),
        Link::Error(e) => ("Ошибка связи", e.clone(), None),
    }
}

/// At or below this charge, in percent, the battery shows as low.
pub const LOW_BATTERY: u8 = 15;

/// Battery symbol.
#[derive(Clone, Copy, Debug, PartialEq, Eq, Structural)]
pub enum BatteryIcon {
    Charging,
    Low,
    Full,
}

/// Battery indicator: charging, low (at most `LOW_BATTERY` percent) or full,
/// and the charge as `"76%"`, with `" · заряжается"` while charging.
pub fn battery_caption(b: Battery) -> (r: (BatteryIcon, Tone, String))
    ensures
        r.0 == (if b.charging {
            BatteryIcon::Charging
        } else if b.percent <= LOW_BATTERY {
            BatteryIcon::Low
        } else {
            BatteryIcon::Full
        }),
        r.1 == (if !b.charging && b.percent <= LOW_BATTERY { Tone::Bad } else { Tone::Good }),
        r.2@ == decimal(b.percent as nat) + "%"@ + (if b.charging {
            " · заряжается"@
        } else {
            Seq::<char>::empty()
        }),
{
    let (icon, tone) = if b.charging {
        (BatteryIcon::Charging, Tone::Good)
    } else if b.percent <= LOW_BATTERY {
        (BatteryIcon::Low, Tone::Bad)
    } else {
        (BatteryIcon::Full, Tone::Good)
    };
    let mut label = String::new();
    push_decimal(&mut label, b.percent as usize);
    label.append("%");
    let ghost plain = label@;
    if b.charging {
        label.append(" · заряжается");
    } else {
        assert(label@ =~= plain + Seq::<char>::empty());
    }
    (icon, tone, label)
}

/// Tone of a notice.
pub fn notice_tone(kind: NoticeKind) -> (r: Tone)
    ensures
        r == match kind {
            NoticeKind::Info => Tone::Info,
            NoticeKind::Success => Tone::Good,
            NoticeKind::Error => Tone::Bad,
        },
{
    match kind {
        NoticeKind::Info => Tone::Info,
        NoticeKind::Success => Tone::Good,
        NoticeKind::Error => Tone::Bad,
    }
}

/// The status line.
#[derive(Debug)]
pub enum Status {
    /// An exchange is running; its description.
    Busy(String),
    /// The edited profile is not saved.
    Unsaved,
    /// The last notice.
    Notice(Notice),
    Blank,
}

/// What the status line shows: a running exchange first, then unsaved
/// edits, then the last notice.
pub fn status(busy: Option<String>, dirty: bool, notice: Option<Notice>) -> (r: Status)
    ensures
        match busy {
            Some(t) => r == Status::Busy(t),
            None => if dirty {
                r == Status::Unsaved
            } else {
                match notice {
                    Some(n) => r == Status::Notice(n),
                    None => r == Status::Blank,
                }
            },
        },
{
    match busy {
        Some(t) => Status::Busy(t),
        None => if dirty {
            Status::Unsaved
        } else {
            match notice {
                Some(n) => Status::Notice(n),
                None => Status::Blank,
            }
        },
    }
}

} // verus!
