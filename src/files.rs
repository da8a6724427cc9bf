//! The identity store: three tables, each read from a text file and reloaded
//! when the file's modification time moves forward.
use vstd::prelude::*;
use crate::text::{
    chars_of, free_of, lemma_split_extend, lemma_split_nonempty, split, split_chars, views,
};
use crate::types::{
    group_from_line, passwd_from_line, shadow_from_line, Group, GroupView, Passwd, PasswdView,
    Shadow, ShadowView,
};

verus! {

/// A file modification time: whole seconds and nanoseconds since 1970-01-01.
#[derive(Clone, Copy, Debug, PartialEq, Eq, Structural)]
pub struct FileTime {
    pub secs: u64,
    pub nanos: u32,
}

/// `a` is strictly later than `b`.
pub open spec fn later(a: FileTime, b: FileTime) -> bool {
    a.secs > b.secs || (a.secs == b.secs && a.nanos > b.nanos)
}

impl FileTime {
    pub fn is_later_than(&self, other: &FileTime) -> (r: bool)
        ensures
            r == later(*self, *other),
    {
        self.secs > other.secs || (self.secs == other.secs && self.nanos > other.nanos)
    }
}

/// What was read of a file: its modification time and its whole text.
pub struct FileSnapshot {
    pub modified: FileTime,
    pub contents: String,
}

/// Which of the three tables.
#[derive(Clone, Copy, Debug, PartialEq, Eq, Structural)]
pub enum Table {
    Passwd,
    Group,
    Shadow,
}

/// A failure of the store.
#[derive(Clone, Copy, Debug, PartialEq, Eq, Structural)]
pub enum StoreError {
    /// A non-empty line of the table's file is not a valid record.
    Malformed(Table),
}

/// The records of a file's lines, in order; empty lines are skipped and any
/// other line that `parse` rejects makes the whole file invalid.
pub open spec fn parse_table<V>(lines: Seq<Seq<char>>, parse: spec_fn(Seq<char>) -> Option<V>) -> Option<Seq<V>>
    decreases lines.len(),
{
    if lines.len() == 0 {
        Some(Seq::empty())
    } else {
        match parse_table(lines.drop_last(), parse) {
            None => None,
            Some(rs) => if lines.last().len() == 0 {
                Some(rs)
            } else {
                match parse(lines.last()) {
                    Some(r) => Some(rs.push(r)),
                    None => None,
                }
            },
        }
    }
}

pub open spec fn passwd_table(text: Seq<char>) -> Option<Seq<PasswdView>> {
    parse_table(split(text, '\n'), |l: Seq<char>| passwd_from_line(l))
}

pub open spec fn group_table(text: Seq<char>) -> Option<Seq<GroupView>> {
    parse_table(split(text, '\n'), |l: Seq<char>| group_from_line(l))
}

pub open spec fn shadow_table(text: Seq<char>) -> Option<Seq<ShadowView>> {
    parse_table(split(text, '\n'), |l: Seq<char>| shadow_from_line(l))
}

/// Once a prefix of the lines is invalid, so is the whole.
pub proof fn lemma_table_prefix_none<V>(
    lines: Seq<Seq<char>>,
    i: int,
    parse: spec_fn(Seq<char>) -> Option<V>,
)
    requires
        0 <= i <= lines.len(),
        parse_table(lines.subrange(0, i), parse) is None,
    ensures
        parse_table(lines, parse) is None,
    decreases lines.len(),
{
    if i < lines.len() {
        assert(lines.drop_last().subrange(0, i) =~= lines.subrange(0, i));
        lemma_table_prefix_none(lines.drop_last(), i, parse);
    } else {
        assert(lines.subrange(0, i) =~= lines);
    }
}

/// Reads a whole `passwd` file.
pub fn parse_passwd_file(text: &str) -> (r: Option<Vec<Passwd>>)
    ensures
        r.deep_view() == passwd_table(text@),
{
    let lines = split_chars(&chars_of(text), '\n');
    let ghost ls = views(lines@);
    let ghost parse = |l: Seq<char>| passwd_from_line(l);
    let mut out: Vec<Passwd> = Vec::new();
    for i in 0..lines.len()
        invariant
            ls == views(lines@),
            ls == split(text@, '\n'),
            parse == (|l: Seq<char>| passwd_from_line(l)),
            parse_table(ls.subrange(0, i as int), parse) == Some(out.deep_view()),
    {
        let ghost pre = ls.subrange(0, i as int);
        assert(ls.subrange(0, i + 1).drop_last() =~= pre);
        assert(ls[i as int] == lines@[i as int]@);
        if lines[i].len() > 0 {
            match Passwd::from_chars(&lines[i]) {
                Some(p) => {
                    let ghost old_out = out.deep_view();
                    out.push(p);
                    assert(out.deep_view() =~= old_out.push(p@));
                },
                None => {
                    proof {
                        lemma_table_prefix_none(ls, i + 1, parse);
                    }
                    return None;
                },
            }
        }
    }
    assert(ls.subrange(0, ls.len() as int) =~= ls);
    Some(out)
}

/// Reads a whole `group` file.
pub fn parse_group_file(text: &str) -> (r: Option<Vec<Group>>)
    ensures
        r.deep_view() == group_table(text@),
{
    let lines = split_chars(&chars_of(text), '\n');
    let ghost ls = views(lines@);
    let ghost parse = |l: Seq<char>| group_from_line(l);
    let mut out: Vec<Group> = Vec::new();
    for i in 0..lines.len()
        invariant
            ls == views(lines@),
            ls == split(text@, '\n'),
            parse == (|l: Seq<char>| group_from_line(l)),
            parse_table(ls.subrange(0, i as int), parse) == Some(out.deep_view()),
    {
        let ghost pre = ls.subrange(0, i as int);
        assert(ls.subrange(0, i + 1).drop_last() =~= pre);
        assert(ls[i as int] == lines@[i as int]@);
        if lines[i].len() > 0 {
            match Group::from_chars(&lines[i]) {
                Some(g) => {
                    let ghost old_out = out.deep_view();
                    out.push(g);
                    assert(out.deep_view() =~= old_out.push(g@));
                },
                None => {
                    proof {
                        lemma_table_prefix_none(ls, i + 1, parse);
                    }
                    return None;
                },
            }
        }
    }
    assert(ls.subrange(0, ls.len() as int) =~= ls);
    Some(out)
}

/// Reads a whole `shadow` file.
pub fn parse_shadow_file(text: &str) -> (r: Option<Vec<Shadow>>)
    ensures
        r.deep_view() == shadow_table(text@),
{
    let lines = split_chars(&chars_of(text), '\n');
    let ghost ls = views(lines@);
    let ghost parse = |l: Seq<char>| shadow_from_line(l);
    let mut out: Vec<Shadow> = Vec::new();
    for i in 0..lines.len()
        invariant
            ls == views(lines@),
            ls == split(text@, '\n'),
            parse == (|l: Seq<char>| shadow_from_line(l)),
            parse_table(ls.subrange(0, i as int), parse) == Some(out.deep_view()),
    {
        let ghost pre = ls.subrange(0, i as int);
        assert(ls.subrange(0, i + 1).drop_last() =~= pre);
        assert(ls[i as int] == lines@[i as int]@);
        if lines[i].len() > 0 {
            match Shadow::from_chars(&lines[i]) {
                Some(s) => {
                    let ghost old_out = out.deep_view();
                    out.push(s);
                    assert(out.deep_view() =~= old_out.push(s@));
                },
                None => {
                    proof {
                        lemma_table_prefix_none(ls, i + 1, parse);
                    }
                    return None;
                },
            }
        }
    }
    assert(ls.subrange(0, ls.len() as int) =~= ls);
    Some(out)
}

/// One table: the file it is read from, the modification time of the text
/// last read, and the records of that text.
pub struct Reloadable<T> {
    pub latest_ts: Option<FileTime>,
    pub pth: String,
    pub data: Vec<T>,
}

pub struct ReloadableView<V> {
    pub latest_ts: Option<FileTime>,
    pub pth: Seq<char>,
    pub data: Seq<V>,
}

impl<T: DeepView> View for Reloadable<T> {
    type V = ReloadableView<T::V>;

    open spec fn view(&self) -> ReloadableView<T::V> {
        ReloadableView { latest_ts: self.latest_ts, pth: self.pth@, data: self.data.deep_view() }
    }
}

/// A file modified at `modified` must be read again: nothing was read yet,
/// or it changed strictly after the text last read.
pub open spec fn stale(latest: Option<FileTime>, modified: FileTime) -> bool {
    match latest {
        None => true,
        Some(t) => later(modified, t),
    }
}

/// The table after a refresh from a file modified at `modified` whose text
/// parses to `parsed`; `None` when the table must be reloaded and the text is
/// invalid, in which case the table stays as it was.
pub open spec fn reload_view<V>(
    t: ReloadableView<V>,
    modified: FileTime,
    parsed: Option<Seq<V>>,
) -> Option<ReloadableView<V>> {
    if !stale(t.latest_ts, modified) {
        Some(t)
    } else {
        match parsed {
            Some(d) => Some(ReloadableView { latest_ts: Some(modified), pth: t.pth, data: d }),
            None => None,
        }
    }
}

/// Reads follow the modification time: once a file's time moves strictly
/// past that of the text last read, a refresh installs the records of the new
/// text; while it does not move, a refresh keeps the records it has, whatever
/// the file now holds.
pub proof fn lemma_reads_follow_mtime<V>(
    t: ReloadableView<V>,
    modified: FileTime,
    parsed: Option<Seq<V>>,
)
    ensures
        stale(t.latest_ts, modified) && parsed is Some ==> reload_view(t, modified, parsed) == Some(
            ReloadableView { latest_ts: Some(modified), pth: t.pth, data: parsed->0 },
        ),
        !stale(t.latest_ts, modified) ==> reload_view(t, modified, parsed) == Some(t),
        t.latest_ts is None ==> stale(t.latest_ts, modified),
{
}

impl<T: DeepView> Reloadable<T> {
    /// A table for the file at `pth`, not read yet.
    pub fn new(pth: String) -> (r: Self)
        ensures
            r@.latest_ts is None,
            r@.pth == pth@,
            r@.data.len() == 0,
    {
        let r = Reloadable { latest_ts: None, pth, data: Vec::new() };
        assert(r@.data =~= Seq::<T::V>::empty());
        r
    }

    /// Whether a file modified at `modified` must be read again.
    pub fn needs_reload(&self, modified: FileTime) -> (r: bool)
        ensures
            r == stale(self.latest_ts, modified),
    {
        match self.latest_ts {
            None => true,
            Some(t) => modified.is_later_than(&t),
        }
    }
}

/// The store: the `passwd`, `group` and `shadow` tables.
pub struct Files {
    pub passwd: Reloadable<Passwd>,
    pub group: Reloadable<Group>,
    pub shadow: Reloadable<Shadow>,
}

pub struct FilesView {
    pub passwd: ReloadableView<PasswdView>,
    pub group: ReloadableView<GroupView>,
    pub shadow: ReloadableView<ShadowView>,
}

impl View for Files {
    type V = FilesView;

    open spec fn view(&self) -> FilesView {
        FilesView { passwd: self.passwd@, group: self.group@, shadow: self.shadow@ }
    }
}

/// The first record of `s` that satisfies `pred`.
pub open spec fn find_first<V>(s: Seq<V>, pred: spec_fn(V) -> bool) -> Option<V>
    decreases s.len(),
{
    if s.len() == 0 {
        None
    } else if pred(s[0]) {
        Some(s[0])
    } else {
        find_first(s.drop_first(), pred)
    }
}

pub open spec fn passwd_named(s: Seq<PasswdView>, name: Seq<char>) -> Option<PasswdView> {
    find_first(s, |p: PasswdView| p.name == name)
}

pub open spec fn passwd_with_uid(s: Seq<PasswdView>, uid: u32) -> Option<PasswdView> {
    find_first(s, |p: PasswdView| p.id == uid)
}

pub open spec fn group_named(s: Seq<GroupView>, name: Seq<char>) -> Option<GroupView> {
    find_first(s, |g: GroupView| g.name == name)
}

pub open spec fn group_with_gid(s: Seq<GroupView>, gid: u32) -> Option<GroupView> {
    find_first(s, |g: GroupView| g.gid == gid)
}

pub open spec fn shadow_named(s: Seq<ShadowView>, name: Seq<char>) -> Option<ShadowView> {
    find_first(s, |r: ShadowView| r.name == name)
}

/// Skipping a record that does not match leaves the first match unchanged.
pub proof fn lemma_find_first_skip<V>(s: Seq<V>, i: int, pred: spec_fn(V) -> bool)
    requires
        0 <= i < s.len(),
        !pred(s[i]),
    ensures
        find_first(s.subrange(i, s.len() as int), pred) == find_first(
            s.subrange(i + 1, s.len() as int),
            pred,
        ),
{
    assert(s.subrange(i, s.len() as int).drop_first() =~= s.subrange(i + 1, s.len() as int));
}

/// The first record after adding `x` at the end, when none matched before.
pub proof fn lemma_find_first_push<V>(s: Seq<V>, x: V, pred: spec_fn(V) -> bool)
    requires
        find_first(s, pred) is None,
    ensures
        find_first(s.push(x), pred) == (if pred(x) {
            Some(x)
        } else {
            None::<V>
        }),
    decreases s.len(),
{
    if s.len() == 0 {
        assert(s.push(x).drop_first() =~= s);
    } else {
        assert(s.push(x).drop_first() =~= s.drop_first().push(x));
        assert(s.push(x)[0] == s[0]);
        lemma_find_first_push(s.drop_first(), x, pred);
    }
}

/// Text that is empty or ends with a line break.
pub open spec fn ends_lines(text: Seq<char>) -> bool {
    text.len() == 0 || text.last() == '\n'
}

/// Appending a valid line to a valid `passwd` text appends its record.
pub proof fn lemma_passwd_table_append(text: Seq<char>, line: Seq<char>)
    requires
        ends_lines(text),
        free_of(line, '\n'),
        passwd_table(text) is Some,
        passwd_from_line(line) is Some,
    ensures
        passwd_table(text + line + seq!['\n']) == Some(
            passwd_table(text)->0.push(passwd_from_line(line)->0),
        ),
{
    let parse = |l: Seq<char>| passwd_from_line(l);
    let e = Seq::<char>::empty();
    lemma_split_nonempty(text, '\n');
    let ls = split(text, '\n');
    if text.len() == 0 {
        assert(ls =~= seq![e]);
    } else {
        assert(ls == split(text.drop_last(), '\n').push(e));
    }
    assert(ls.last() == e);
    let l0 = ls.drop_last();
    assert(ls =~= l0.push(e));
    assert(ls.drop_last() =~= l0);
    assert(parse_table(ls, parse) == parse_table(l0, parse));
    if line.len() == 0 {
        assert(split(line, '\n') =~= seq![e]);
        assert(split(line, ':') =~= seq![e]);
    }
    lemma_split_extend(text, line, '\n');
    assert(e + line =~= line);
    let with_line = l0.push(line);
    assert(split(text + line, '\n') =~= with_line);
    let all = text + line + seq!['\n'];
    assert(all.drop_last() =~= text + line);
    assert(all.last() == '\n');
    assert(split(all, '\n') == with_line.push(e));
    assert(with_line.push(e).drop_last() =~= with_line);
    assert(with_line.drop_last() =~= l0);
    assert(parse_table(with_line.push(e), parse) == parse_table(with_line, parse));
}

/// A line appended to the `passwd` file is seen by the next lookup of its
/// name once the file's time has moved past that of the text last read,
/// when no earlier record has that name and the table held that text.
pub proof fn lemma_appended_line_seen(
    t: ReloadableView<PasswdView>,
    text: Seq<char>,
    line: Seq<char>,
    modified: FileTime,
)
    requires
        passwd_table(text) == Some(t.data),
        ends_lines(text),
        free_of(line, '\n'),
        passwd_from_line(line) is Some,
        passwd_named(t.data, passwd_from_line(line)->0.name) is None,
        stale(t.latest_ts, modified),
    ensures
        ({
            let u = reload_view(t, modified, passwd_table(text + line + seq!['\n']));
            let p = passwd_from_line(line)->0;
            u is Some && passwd_named(u->0.data, p.name) == Some(p)
        }),
{
    let p = passwd_from_line(line)->0;
    lemma_passwd_table_append(text, line);
    lemma_find_first_push(t.data, p, |x: PasswdView| x.name == p.name);
}

/// The largest user id of the records, if there are any.
pub open spec fn max_uid(s: Seq<PasswdView>) -> Option<u32>
    decreases s.len(),
{
    if s.len() == 0 {
        None
    } else {
        match max_uid(s.drop_last()) {
            Some(m) => Some(if s.last().id > m {
                s.last().id
            } else {
                m
            }),
            None => Some(s.last().id),
        }
    }
}

/// The user id for a new local account: one past the largest in use, or 2
/// when there are no accounts; none when the largest is the last id.
pub open spec fn next_uid_of(s: Seq<PasswdView>) -> Option<u32> {
    match max_uid(s) {
        Some(m) => if m < u32::MAX {
            Some((m + 1) as u32)
        } else {
            None
        },
        None => Some(2),
    }
}

/// The user id for a new local account, given the current accounts.
pub fn next_uid(users: &Vec<Passwd>) -> (r: Option<u32>)
    ensures
        r == next_uid_of(users.deep_view()),
{
    let ghost d = users.deep_view();
    let mut largest: Option<u32> = None;
    for i in 0..users.len()
        invariant
            d == users.deep_view(),
            largest == max_uid(d.subrange(0, i as int)),
    {
        assert(d.subrange(0, i + 1).drop_last() =~= d.subrange(0, i as int));
        assert(users[i as int]@ == d[i as int]);
        let id = users[i].id;
        largest = match largest {
            Some(m) => Some(if id > m { id } else { m }),
            None => Some(id),
        };
    }
    assert(d.subrange(0, d.len() as int) =~= d);
    match largest {
        Some(m) => if m < u32::MAX {
            Some(m + 1)
        } else {
            None
        },
        None => Some(2),
    }
}

impl Files {
    /// A store over the three files, none of them read yet.
    pub fn new(passwd: String, group: String, shadow: String) -> (r: Self)
        ensures
            r@.passwd.latest_ts is None && r@.passwd.pth == passwd@ && r@.passwd.data.len() == 0,
            r@.group.latest_ts is None && r@.group.pth == group@ && r@.group.data.len() == 0,
            r@.shadow.latest_ts is None && r@.shadow.pth == shadow@ && r@.shadow.data.len() == 0,
    {
        Files {
            passwd: Reloadable::new(passwd),
            group: Reloadable::new(group),
            shadow: Reloadable::new(shadow),
        }
    }

    /// Reloads the `passwd` table from `snap` if the file changed since it
    /// was last read.
    pub fn refresh_passwd(&mut self, snap: &FileSnapshot) -> (r: Result<(), StoreError>)
        ensures
            ({
                let next = reload_view(
                    old(self)@.passwd,
                    snap.modified,
                    passwd_table(snap.contents@),
                );
                &&& r is Ok <==> next is Some
                &&& next is Some ==> final(self)@.passwd == next->0
                &&& next is None ==> final(self)@.passwd == old(self)@.passwd && r == Err::<
                    (),
                    StoreError,
                >(StoreError::Malformed(Table::Passwd))
            }),
            final(self)@.group == old(self)@.group,
            final(self)@.shadow == old(self)@.shadow,
    {
        if self.passwd.needs_reload(snap.modified) {
            match parse_passwd_file(snap.contents.as_str()) {
                Some(data) => {
                    self.passwd.data = data;
                    self.passwd.latest_ts = Some(snap.modified);
                },
                None => {
                    return Err(StoreError::Malformed(Table::Passwd));
                },
            }
        }
        Ok(())
    }

    /// Reloads the `group` table from `snap` if the file changed since it
    /// was last read.
    pub fn refresh_group(&mut self, snap: &FileSnapshot) -> (r: Result<(), StoreError>)
        ensures
            ({
                let next = reload_view(old(self)@.group, snap.modified, group_table(snap.contents@));
                &&& r is Ok <==> next is Some
                &&& next is Some ==> final(self)@.group == next->0
                &&& next is None ==> final(self)@.group == old(self)@.group && r == Err::<
                    (),
                    StoreError,
                >(StoreError::Malformed(Table::Group))
            }),
            final(self)@.passwd == old(self)@.passwd,
            final(self)@.shadow == old(self)@.shadow,
    {
        if self.group.needs_reload(snap.modified) {
            match parse_group_file(snap.contents.as_str()) {
                Some(data) => {
                    self.group.data = data;
                    self.group.latest_ts = Some(snap.modified);
                },
                None => {
                    return Err(StoreError::Malformed(Table::Group));
                },
            }
        }
        Ok(())
    }

    /// Reloads the `shadow` table from `snap` if the file changed since it
    /// was last read.
    pub fn refresh_shadow(&mut self, snap: &FileSnapshot) -> (r: Result<(), StoreError>)
        ensures
            ({
                let next = reload_view(
                    old(self)@.shadow,
                    snap.modified,
                    shadow_table(snap.contents@),
                );
                &&& r is Ok <==> next is Some
                &&& next is Some ==> final(self)@.shadow == next->0
                &&& next is None ==> final(self)@.shadow == old(self)@.shadow && r == Err::<
                    (),
                    StoreError,
                >(StoreError::Malformed(Table::Shadow))
            }),
            final(self)@.passwd == old(self)@.passwd,
            final(self)@.group == old(self)@.group,
    {
        if self.shadow.needs_reload(snap.modified) {
            match parse_shadow_file(snap.contents.as_str()) {
                Some(data) => {
                    self.shadow.data = data;
                    self.shadow.latest_ts = Some(snap.modified);
                },
                None => {
                    return Err(StoreError::Malformed(Table::Shadow));
                },
            }
        }
        Ok(())
    }

    /// Brings the three tables up to date with what was read of their files,
    /// in the order `passwd`, `group`, `shadow`, stopping at the first table
    /// whose changed file does not parse. A table whose file did not change
    /// since it was last read is kept as it is.
    pub fn refresh(
        &mut self,
        passwd: &FileSnapshot,
        group: &FileSnapshot,
        shadow: &FileSnapshot,
    ) -> (r: Result<(), StoreError>)
        ensures
            ({
                let p = reload_view(old(self)@.passwd, passwd.modified, passwd_table(passwd.contents@));
                let g = reload_view(old(self)@.group, group.modified, group_table(group.contents@));
                let s = reload_view(old(self)@.shadow, shadow.modified, shadow_table(shadow.contents@));
                &&& r is Ok <==> (p is Some && g is Some && s is Some)
                &&& final(self)@.passwd == (if p is Some { p->0 } else { old(self)@.passwd })
                &&& final(self)@.group == (if p is Some && g is Some { g->0 } else { old(self)@.group })
                &&& final(self)@.shadow == (if p is Some && g is Some && s is Some { s->0 } else { old(self)@.shadow })
                &&& p is None ==> r == Err::<(), StoreError>(StoreError::Malformed(Table::Passwd))
                &&& (p is Some && g is None) ==> r == Err::<(), StoreError>(StoreError::Malformed(Table::Group))
                &&& (p is Some && g is Some && s is None) ==> r == Err::<(), StoreError>(StoreError::Malformed(Table::Shadow))
            }),
    {
        self.refresh_passwd(passwd)?;
        self.refresh_group(group)?;
        self.refresh_shadow(shadow)
    }

    /// The first `passwd` record with this name.
    pub fn passwd_by_name(&self, key: &String) -> (r: Option<Passwd>)
        ensures
            r.deep_view() == passwd_named(self@.passwd.data, key@),
    {
        let ghost pred = |x: PasswdView| x.name == key@;
        let ghost d = self@.passwd.data;
        assert(d.subrange(0, d.len() as int) =~= d);
        for i in 0..self.passwd.data.len()
            invariant
                d == self@.passwd.data,
                pred == (|x: PasswdView| x.name == key@),
                find_first(d, pred) == find_first(d.subrange(i as int, d.len() as int), pred),
        {
            assert(self.passwd.data[i as int]@ == d[i as int]);
            if self.passwd.data[i].name == *key {
                assert(d.subrange(i as int, d.len() as int)[0] == d[i as int]);
                return Some(self.passwd.data[i].duplicate());
            }
            proof {
                lemma_find_first_skip(d, i as int, pred);
            }
        }
        assert(d.subrange(d.len() as int, d.len() as int).len() == 0);
        None
    }

    /// The first `passwd` record with this user id.
    pub fn passwd_by_uid(&self, key: u32) -> (r: Option<Passwd>)
        ensures
            r.deep_view() == passwd_with_uid(self@.passwd.data, key),
    {
        let ghost pred = |x: PasswdView| x.id == key;
        let ghost d = self@.passwd.data;
        assert(d.subrange(0, d.len() as int) =~= d);
        for i in 0..self.passwd.data.len()
            invariant
                d == self@.passwd.data,
                pred == (|x: PasswdView| x.id == key),
                find_first(d, pred) == find_first(d.subrange(i as int, d.len() as int), pred),
        {
            assert(self.passwd.data[i as int]@ == d[i as int]);
            if self.passwd.data[i].id == key {
                assert(d.subrange(i as int, d.len() as int)[0] == d[i as int]);
                return Some(self.passwd.data[i].duplicate());
            }
            proof {
                lemma_find_first_skip(d, i as int, pred);
            }
        }
        assert(d.subrange(d.len() as int, d.len() as int).len() == 0);
        None
    }

    /// The first `group` record with this name.
    pub fn group_by_name(&self, key: &String) -> (r: Option<Group>)
        ensures
            r.deep_view() == group_named(self@.group.data, key@),
    {
        let ghost pred = |x: GroupView| x.name == key@;
        let ghost d = self@.group.data;
        assert(d.subrange(0, d.len() as int) =~= d);
        for i in 0..self.group.data.len()
            invariant
                d == self@.group.data,
                pred == (|x: GroupView| x.name == key@),
                find_first(d, pred) == find_first(d.subrange(i as int, d.len() as int), pred),
        {
            assert(self.group.data[i as int]@ == d[i as int]);
            if self.group.data[i].name == *key {
                assert(d.subrange(i as int, d.len() as int)[0] == d[i as int]);
                return Some(self.group.data[i].duplicate());
            }
            proof {
                lemma_find_first_skip(d, i as int, pred);
            }
        }
        assert(d.subrange(d.len() as int, d.len() as int).len() == 0);
        None
    }

    /// The first `group` record with this group id.
    pub fn group_by_gid(&self, key: u32) -> (r: Option<Group>)
        ensures
            r.deep_view() == group_with_gid(self@.group.data, key),
    {
        let ghost pred = |x: GroupView| x.gid == key;
        let ghost d = self@.group.data;
        assert(d.subrange(0, d.len() as int) =~= d);
        for i in 0..self.group.data.len()
            invariant
                d == self@.group.data,
                pred == (|x: GroupView| x.gid == key),
                find_first(d, pred) == find_first(d.subrange(i as int, d.len() as int), pred),
        {
            assert(self.group.data[i as int]@ == d[i as int]);
            if self.group.data[i].gid == key {
                assert(d.subrange(i as int, d.len() as int)[0] == d[i as int]);
                return Some(self.group.data[i].duplicate());
            }
            proof {
                lemma_find_first_skip(d, i as int, pred);
            }
        }
        assert(d.subrange(d.len() as int, d.len() as int).len() == 0);
        None
    }

    /// The first `shadow` record with this name.
    pub fn shadow_by_name(&self, key: &String) -> (r: Option<Shadow>)
        ensures
            r.deep_view() == shadow_named(self@.shadow.data, key@),
    {
        let ghost pred = |x: ShadowView| x.name == key@;
        let ghost d = self@.shadow.data;
        assert(d.subrange(0, d.len() as int) =~= d);
        for i in 0..self.shadow.data.len()
            invariant
                d == self@.shadow.data,
                pred == (|x: ShadowView| x.name == key@),
                find_first(d, pred) == find_first(d.subrange(i as int, d.len() as int), pred),
        {
            assert(self.shadow.data[i as int]@ == d[i as int]);
            if self.shadow.data[i].name == *key {
                assert(d.subrange(i as int, d.len() as int)[0] == d[i as int]);
                return Some(self.shadow.data[i].duplicate());
            }
            proof {
                lemma_find_first_skip(d, i as int, pred);
            }
        }
        assert(d.subrange(d.len() as int, d.len() as int).len() == 0);
        None
    }

    /// The account record to add for a newly registered user, or none when
    /// an account of that name already exists.
    pub fn account_for_new_user(
        &self,
        name: &String,
        uid: u32,
        gecos: &String,
        dir: &String,
        shell: &String,
    ) -> (r: Option<Passwd>)
        ensures
            passwd_named(self@.passwd.data, name@) is Some ==> (r is None),
            passwd_named(self@.passwd.data, name@) is None ==> (r is Some && r->0@ == (PasswdView {
                name: name@,
                id: uid,
                gecos: gecos@,
                dir: dir@,
                shell: shell@,
            })),
    {
        match self.passwd_by_name(name) {
            Some(_) => None,
            None => Some(
                Passwd {
                    name: name.clone(),
                    id: uid,
                    gecos: gecos.clone(),
                    dir: dir.clone(),
                    shell: shell.clone(),
                },
            ),
        }
    }

    /// All `passwd` records, in file order.
    pub fn get_all_passwd(&self) -> (r: Vec<Passwd>)
        ensures
            r.deep_view() == self@.passwd.data,
    {
        let mut r: Vec<Passwd> = Vec::new();
        for i in 0..self.passwd.data.len()
            invariant
                r.deep_view() == self@.passwd.data.subrange(0, i as int),
        {
            let ghost old_r = r.deep_view();
            let x = self.passwd.data[i].duplicate();
            assert(x@ == self@.passwd.data[i as int]);
            r.push(x);
            assert(r.deep_view() =~= old_r.push(x@));
            assert(r.deep_view() =~= self@.passwd.data.subrange(0, i + 1));
        }
        assert(self@.passwd.data.subrange(0, self@.passwd.data.len() as int) =~= self@.passwd.data);
        r
    }

    /// All `group` records, in file order.
    pub fn get_all_groups(&self) -> (r: Vec<Group>)
        ensures
            r.deep_view() == self@.group.data,
    {
        let mut r: Vec<Group> = Vec::new();
        for i in 0..self.group.data.len()
            invariant
                r.deep_view() == self@.group.data.subrange(0, i as int),
        {
            let ghost old_r = r.deep_view();
            let x = self.group.data[i].duplicate();
            assert(x@ == self@.group.data[i as int]);
            r.push(x);
            assert(r.deep_view() =~= old_r.push(x@));
            assert(r.deep_view() =~= self@.group.data.subrange(0, i + 1));
        }
        assert(self@.group.data.subrange(0, self@.group.data.len() as int) =~= self@.group.data);
        r
    }

    /// All `shadow` records, in file order.
    pub fn get_all_shadow(&self) -> (r: Vec<Shadow>)
        ensures
            r.deep_view() == self@.shadow.data,
    {
        let mut r: Vec<Shadow> = Vec::new();
        for i in 0..self.shadow.data.len()
            invariant
                r.deep_view() == self@.shadow.data.subrange(0, i as int),
        {
            let ghost old_r = r.deep_view();
            let x = self.shadow.data[i].duplicate();
            assert(x@ == self@.shadow.data[i as int]);
            r.push(x);
            assert(r.deep_view() =~= old_r.push(x@));
            assert(r.deep_view() =~= self@.shadow.data.subrange(0, i + 1));
        }
        assert(self@.shadow.data.subrange(0, self@.shadow.data.len() as int) =~= self@.shadow.data);
        r
    }
}

} // verus!
