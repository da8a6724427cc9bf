//! The host-side name-service view of the directory: records in the shape
//! that the operating system's `passwd`, `group` and `shadow` lookups return,
//! and the status a lookup reports.
use vstd::prelude::*;
use crate::text::{string_from, string_views};
use crate::types::{placeholder, Group, Passwd, Shadow};

verus! {

/// Conversion of a directory record into its name-service shape.
pub trait ToNSS {
    type Target;

    /// `r` is the name-service entry of this record.
    spec fn renders_as(&self, r: Self::Target) -> bool;

    fn to_nss(&self) -> (r: Self::Target)
        ensures
            self.renders_as(r),
    ;
}

/// A `passwd` entry as the name service hands it out.
#[derive(Debug, Clone)]
pub struct NssPasswd {
    pub name: String,
    pub passwd: String,
    pub uid: u32,
    pub gid: u32,
    pub gecos: String,
    pub dir: String,
    pub shell: String,
}

/// A `group` entry as the name service hands it out.
#[derive(Debug, Clone)]
pub struct NssGroup {
    pub name: String,
    pub passwd: String,
    pub gid: u32,
    pub members: Vec<String>,
}

/// A `shadow` entry as the name service hands it out: absent day counts
/// become zero.
#[derive(Debug, Clone)]
pub struct NssShadow {
    pub name: String,
    pub passwd: String,
    pub last_change: i64,
    pub change_min_days: i64,
    pub change_max_days: i64,
    pub change_warn_days: i64,
    pub change_inactive_days: i64,
    pub expire_date: i64,
    pub reserved: u64,
}

/// The value of an optional day count, zero when absent.
pub open spec fn or_zero(v: Option<i64>) -> i64 {
    match v {
        Some(d) => d,
        None => 0,
    }
}

fn placeholder_text() -> (r: String)
    ensures
        r@ == placeholder(),
{
    proof {
        reveal_strlit("x");
    }
    string_from("x")
}

fn copy_text(s: &String) -> (r: String)
    ensures
        r@ == s@,
{
    s.clone()
}

impl Passwd {
    /// The name-service entry: placeholder password, group id equal to the
    /// user id.
    pub fn nss_entry(&self) -> (r: NssPasswd)
        ensures
            r.name@ == self.name@,
            r.passwd@ == placeholder(),
            r.uid == self.id,
            r.gid == self.id,
            r.gecos@ == self.gecos@,
            r.dir@ == self.dir@,
            r.shell@ == self.shell@,
    {
        NssPasswd {
            name: copy_text(&self.name),
            passwd: placeholder_text(),
            uid: self.id,
            gid: self.id,
            gecos: copy_text(&self.gecos),
            dir: copy_text(&self.dir),
            shell: copy_text(&self.shell),
        }
    }
}

impl Group {
    /// The name-service entry: placeholder password, same members.
    pub fn nss_entry(&self) -> (r: NssGroup)
        ensures
            r.name@ == self.name@,
            r.passwd@ == placeholder(),
            r.gid == self.gid,
            string_views(r.members@) == string_views(self.members@),
    {
        let d = self.duplicate();
        NssGroup { name: d.name, passwd: placeholder_text(), gid: d.gid, members: d.members }
    }
}

impl Shadow {
    /// The name-service entry: absent day counts become zero.
    pub fn nss_entry(&self) -> (r: NssShadow)
        ensures
            r.name@ == self.name@,
            r.passwd@ == self.passwd@,
            r.last_change == self.last_change,
            r.change_min_days == self.change_min_days,
            r.change_max_days == self.change_max_days,
            r.change_warn_days == self.change_warn_days,
            r.change_inactive_days == or_zero(self.change_inactive_days),
            r.expire_date == or_zero(self.expire_date),
            r.reserved == 0,
    {
        NssShadow {
            name: copy_text(&self.name),
            passwd: copy_text(&self.passwd),
            last_change: self.last_change,
            change_min_days: self.change_min_days,
            change_max_days: self.change_max_days,
            change_warn_days: self.change_warn_days,
            change_inactive_days: match self.change_inactive_days {
                Some(d) => d,
                None => 0,
            },
            expire_date: match self.expire_date {
                Some(d) => d,
                None => 0,
            },
            reserved: 0,
        }
    }
}

impl ToNSS for Passwd {
    type Target = NssPasswd;

    /// Placeholder password, group id equal to the user id.
    open spec fn renders_as(&self, r: NssPasswd) -> bool {
        &&& r.name@ == self.name@
        &&& r.passwd@ == placeholder()
        &&& r.uid == self.id
        &&& r.gid == self.id
        &&& r.gecos@ == self.gecos@
        &&& r.dir@ == self.dir@
        &&& r.shell@ == self.shell@
    }

    fn to_nss(&self) -> (r: NssPasswd) {
        self.nss_entry()
    }
}

impl ToNSS for Group {
    type Target = NssGroup;

    /// Placeholder password, same group id and members.
    open spec fn renders_as(&self, r: NssGroup) -> bool {
        &&& r.name@ == self.name@
        &&& r.passwd@ == placeholder()
        &&& r.gid == self.gid
        &&& string_views(r.members@) == string_views(self.members@)
    }

    fn to_nss(&self) -> (r: NssGroup) {
        self.nss_entry()
    }
}

impl ToNSS for Shadow {
    type Target = NssShadow;

    /// Same fields; absent day counts become zero, the reserved field zero.
    open spec fn renders_as(&self, r: NssShadow) -> bool {
        &&& r.name@ == self.name@
        &&& r.passwd@ == self.passwd@
        &&& r.last_change == self.last_change
        &&& r.change_min_days == self.change_min_days
        &&& r.change_max_days == self.change_max_days
        &&& r.change_warn_days == self.change_warn_days
        &&& r.change_inactive_days == or_zero(self.change_inactive_days)
        &&& r.expire_date == or_zero(self.expire_date)
        &&& r.reserved == 0
    }

    fn to_nss(&self) -> (r: NssShadow) {
        self.nss_entry()
    }
}

/// What a name-service lookup reports.
#[derive(Clone, Copy, Debug, PartialEq, Eq, Structural)]
pub enum NssStatus {
    Success,
    NotFound,
    Unavail,
}

/// The status of a single-record lookup: found, not found, or the daemon
/// could not be asked.
pub fn lookup_status<T, E>(r: &Result<Option<T>, E>) -> (s: NssStatus)
    ensures
        s == match r {
            Ok(Some(_)) => NssStatus::Success,
            Ok(None) => NssStatus::NotFound,
            Err(_) => NssStatus::Unavail,
        },
{
    match r {
        Ok(Some(_)) => NssStatus::Success,
        Ok(None) => NssStatus::NotFound,
        Err(_) => NssStatus::Unavail,
    }
}

/// The status of a listing: any answer is a success.
pub fn list_status<T, E>(r: &Result<Vec<T>, E>) -> (s: NssStatus)
    ensures
        s == match r {
            Ok(_) => NssStatus::Success,
            Err(_) => NssStatus::Unavail,
        },
{
    match r {
        Ok(_) => NssStatus::Success,
        Err(_) => NssStatus::Unavail,
    }
}

/// When a cached connection has gone unused long enough to be dropped.
/// Times are milliseconds on a clock that does not go back.
pub struct IdleTimer {
    deadline: Option<u64>,
}

impl IdleTimer {
    /// The moment after which the connection counts as idle, if it was used.
    pub closed spec fn deadline(&self) -> Option<u64> {
        self.deadline
    }

    pub fn new() -> (r: IdleTimer)
        ensures
            r.deadline() is None,
    {
        IdleTimer { deadline: None }
    }

    /// Records a use at `now`: the connection stays for `idle` more
    /// milliseconds.
    pub fn touch(&mut self, now: u64, idle: u64)
        ensures
            final(self).deadline() == Some(
                (if now + idle <= u64::MAX {
                    now + idle
                } else {
                    u64::MAX as int
                }) as u64,
            ),
    {
        self.deadline = Some(now.saturating_add(idle));
    }

    /// Whether at `now` the connection has been idle past its deadline.
    pub fn expired(&self, now: u64) -> (r: bool)
        ensures
            r == match self.deadline() {
                Some(d) => now > d,
                None => false,
            },
    {
        match self.deadline {
            Some(d) => now > d,
            None => false,
        }
    }
}

} // verus!
