//! Decisions of the background session with the mouse: what a failure means
//! for the link, which notices the user gets, and when a freshly read profile
//! replaces the one being edited.
use vstd::prelude::*;
use crate::protocol::eeprom::{
    changed_upto, names, DeviceConfig, Region, REGION_COUNT,
};
use crate::protocol::packet::{digit_str, hex_char};
use crate::transport::{fits_message, Error};

verus! {

/// Link state shown to the user.
#[derive(Clone, Debug, PartialEq, Eq)]
pub enum Link {
    Searching,
    NotFound,
    NoAccess(String),
    /// The receiver is there, the mouse sleeps or is off.
    Asleep,
    Ready,
    Error(String),
}

#[derive(Clone, Copy, Debug, PartialEq, Eq, Structural)]
pub enum NoticeKind {
    Info,
    Success,
    Error,
}

#[derive(Clone, Debug, PartialEq, Eq)]
pub struct Notice {
    pub kind: NoticeKind,
    pub text: String,
}

impl Notice {
    pub fn new(kind: NoticeKind, text: String) -> (n: Self)
        ensures
            n.kind == kind,
            n.text@ == text@,
    {
        Notice { kind, text }
    }
}

/// What a failed exchange means for the connection.
#[derive(Clone, Copy, Debug, PartialEq, Eq, Structural)]
pub enum Recovery {
    /// The device is gone: drop it and search again.
    Reconnect,
    /// The receiver answers but the mouse does not.
    Asleep,
    /// Nothing changes.
    Keep,
}

/// The device is lost on `NotFound` and I/O errors; a timeout means the mouse
/// sleeps.
pub fn recovery(e: &Error) -> (r: Recovery)
    ensures
        r == match e {
            Error::NotFound | Error::Io(_) => Recovery::Reconnect,
            Error::Timeout { .. } => Recovery::Asleep,
            _ => Recovery::Keep,
        },
{
    match e {
        Error::NotFound | Error::Io(_) => Recovery::Reconnect,
        Error::Timeout { .. } => Recovery::Asleep,
        _ => Recovery::Keep,
    }
}

/// Link state after the device could not be opened.
pub fn open_failure_link(e: &Error) -> (r: Link)
    ensures
        match e {
            Error::NotFound => r == Link::NotFound,
            Error::Permission(p) => r matches Link::NoAccess(q) && q@ == p@,
            _ => r matches Link::Error(t) && fits_message(*e, t@),
        },
{
    match e {
        Error::NotFound => Link::NotFound,
        Error::Permission(p) => Link::NoAccess(p.clone()),
        _ => Link::Error(e.message()),
    }
}

/// Texts joined with a separator.
pub open spec fn join(items: Seq<Seq<char>>, sep: Seq<char>) -> Seq<char>
    decreases items.len(),
{
    if items.len() == 0 {
        Seq::empty()
    } else if items.len() == 1 {
        items[0]
    } else {
        join(items.drop_last(), sep) + sep + items.last()
    }
}

/// Appends the texts of `items`, separated by `", "`.
fn push_joined(out: &mut String, items: &Vec<&'static str>)
    ensures
        final(out)@ == old(out)@ + join(names(items@), ", "@),
{
    let ghost start = out@;
    let ghost views = names(items@);
    let mut i: usize = 0;
    assert(views.take(0) =~= Seq::<Seq<char>>::empty());
    while i < items.len()
        invariant
            i <= items@.len(),
            views == names(items@),
            out@ == start + join(views.take(i as int), ", "@),
        decreases items.len() - i,
    {
        assert(views.take(i + 1).drop_last() =~= views.take(i as int));
        if i > 0 {
            out.append(", ");
        }
        out.append(items[i]);
        proof {
            if i == 0 {
                assert(views.take(1) =~= seq![views[0]]);
            }
        }
        i = i + 1;
    }
    assert(views.take(items@.len() as int) =~= views);
}

/// Notice after reading the profile: broken fields are reported; a read the
/// user asked for is confirmed; otherwise nothing is said.
pub fn read_notice(warn: &Vec<&'static str>, force: bool) -> (r: Option<Notice>)
    ensures
        warn@.len() > 0 ==> (r matches Some(n) && n.kind == NoticeKind::Error && n.text@
            == "Повреждённые поля заменены заводскими: "@ + join(
            names(warn@),
            ", "@,
        )),
        warn@.len() == 0 && force ==> (r matches Some(n) && n.kind == NoticeKind::Info && n.text@
            == "Настройки перечитаны с мыши"@),
        warn@.len() == 0 && !force ==> r is None,
{
    if warn.len() > 0 {
        let mut t = String::from_str("Повреждённые поля заменены заводскими: ");
        push_joined(&mut t, warn);
        Some(Notice::new(NoticeKind::Error, t))
    } else if force {
        Some(Notice::new(NoticeKind::Info, String::from_str("Настройки перечитаны с мыши")))
    } else {
        None
    }
}

/// Notice after a failed read the user asked for.
pub fn read_failure_notice(e: &Error) -> (n: Notice)
    ensures
        n.kind == NoticeKind::Error,
        exists|m: Seq<char>| fits_message(*e, m) && n.text@ == "Не удалось прочитать: "@ + m,
{
    let mut t = String::from_str("Не удалось прочитать: ");
    let m = e.message();
    t.append(m.as_str());
    Notice::new(NoticeKind::Error, t)
}

/// Notice after a failed write.
pub fn write_failure_notice(e: &Error) -> (n: Notice)
    ensures
        n.kind == NoticeKind::Error,
        exists|m: Seq<char>| fits_message(*e, m) && n.text@ == "Запись не удалась: "@ + m,
{
    let mut t = String::from_str("Запись не удалась: ");
    let m = e.message();
    t.append(m.as_str());
    Notice::new(NoticeKind::Error, t)
}

/// What applying the edited profile comes to.
#[derive(Debug)]
pub enum ApplyPlan {
    /// The profile may not be written; the notice says why.
    Refuse(Notice),
    /// Nothing differs from the device.
    Unchanged(Notice),
    /// The regions to write, in order.
    Write(Vec<Region>),
}

/// Applying `new` over the device's `old`: refused when `new` does not
/// validate, nothing to do when no region changed, else the changed regions.
pub fn plan_apply(new: &DeviceConfig, old: &DeviceConfig) -> (r: ApplyPlan)
    ensures
        match new.validate_spec() {
            Err(msg) => r matches ApplyPlan::Refuse(n) && n.kind == NoticeKind::Error && n.text@ == msg,
            Ok(_) => if changed_upto(*new, *old, REGION_COUNT as int).len() == 0 {
                r matches ApplyPlan::Unchanged(n) && n.kind == NoticeKind::Info && n.text@
                    == "Изменений нет"@
            } else {
                r matches ApplyPlan::Write(rs) && rs@.len() == changed_upto(
                    *new,
                    *old,
                    REGION_COUNT as int,
                ).len() && forall|j: int|
                    0 <= j < rs@.len() ==> new.is_region(
                        changed_upto(*new, *old, REGION_COUNT as int)[j],
                        #[trigger] rs@[j],
                    )
            },
        },
{
    match new.validate() {
        Err(msg) => ApplyPlan::Refuse(Notice::new(NoticeKind::Error, msg)),
        Ok(()) => {
            let regions = new.changed_regions(old);
            if regions.len() == 0 {
                ApplyPlan::Unchanged(Notice::new(NoticeKind::Info, String::from_str("Изменений нет")))
            } else {
                ApplyPlan::Write(regions)
            }
        },
    }
}

/// Names of a list of regions.
pub open spec fn region_names(rs: Seq<Region>) -> Seq<Seq<char>> {
    rs.map_values(|r: Region| r.name@)
}

/// Notice after the regions were written.
pub fn written_notice(regions: &Vec<Region>) -> (n: Notice)
    ensures
        n.kind == NoticeKind::Success,
        n.text@ == "Сохранено в мышь: "@ + join(region_names(regions@), ", "@),
{
    let mut list: Vec<&'static str> = Vec::new();
    let mut i: usize = 0;
    while i < regions.len()
        invariant
            i <= regions@.len(),
            list@.len() == i,
            forall|k: int| 0 <= k < i ==> (#[trigger] list@[k])@ == regions@[k].name@,
        decreases regions.len() - i,
    {
        list.push(regions[i].name);
        i = i + 1;
    }
    assert(names(list@) =~= region_names(regions@));
    let mut t = String::from_str("Сохранено в мышь: ");
    push_joined(&mut t, &list);
    Notice::new(NoticeKind::Success, t)
}

/// Decimal digits of `n`.
pub open spec fn decimal(n: nat) -> Seq<char>
    decreases n,
{
    if n < 10 {
        seq![hex_char(n as int, true)]
    } else {
        decimal(n / 10) + seq![hex_char((n % 10) as int, true)]
    }
}

pub(crate) fn push_decimal(out: &mut String, n: usize)
    ensures
        final(out)@ == old(out)@ + decimal(n as nat),
    decreases n,
{
    if n >= 10 {
        push_decimal(out, n / 10);
    }
    out.append(digit_str((n % 10) as u8, true));
}

/// Progress text before writing region `i` of `n`: `"Запись: name (i+1/n)"`.
pub fn write_progress(i: usize, n: usize, name: &str) -> (r: String)
    requires
        i < usize::MAX,
    ensures
        r@ == "Запись: "@ + name@ + " ("@ + decimal((i + 1) as nat) + "/"@ + decimal(n as nat) + ")"@,
{
    let mut s = String::from_str("Запись: ");
    s.append(name);
    s.append(" (");
    push_decimal(&mut s, i + 1);
    s.append("/");
    push_decimal(&mut s, n);
    s.append(")");
    s
}

/// The edited profile differs from the one on the device.
pub fn is_dirty(snapshot: &Option<DeviceConfig>, edit: &DeviceConfig) -> (r: bool)
    ensures
        r == (snapshot matches Some(s) && s != *edit),
{
    match snapshot {
        Some(s) => !s.same_as(edit),
        None => false,
    }
}

/// A freshly read profile replaces the edited one when the user asked for
/// the read or has no unsaved edits.
pub fn replaces_edit(force: bool, snapshot: &Option<DeviceConfig>, edit: &DeviceConfig) -> (r: bool)
    ensures
        r == (force || !(snapshot matches Some(s) && s != *edit)),
{
    force || !is_dirty(snapshot, edit)
}

} // verus!
