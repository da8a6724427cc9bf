//! The three record kinds of the directory and their colon-delimited line
//! formats:
//!
//! - `passwd`: `name:x:uid:uid:gecos:dir:shell`
//! - `group`: `name:x:gid:m1,m2,...`
//! - `shadow`: `name:hash:last:min:max:warn:inactive:expire:`
use vstd::prelude::*;
use crate::text::{
    canonical_digits, canonical_int, lemma_canonical_decimal, lemma_canonical_int, lemma_join_split,
    chars_of, decimal_string, int_string, join_strings, lemma_decimal, lemma_digits_free,
    lemma_join_free, lemma_join_nonempty, lemma_parse_decimal, lemma_parse_int_text,
    lemma_split_join, parse_i64_chars, parse_u32_chars, split_chars, string_from, string_of,
    strings_of, views, all_digits, decimal, free_of, int_text, is_digit, join, parse_i64, parse_u32, split, string_views,
};

verus! {

/// A user account. The group id is not stored: it is always the user id.
#[derive(Debug, Clone)]
pub struct Passwd {
    pub name: String,
    pub id: u32,
    pub gecos: String,
    pub dir: String,
    pub shell: String,
}

/// A group and the names of its members.
#[derive(Debug, Clone)]
pub struct Group {
    pub name: String,
    pub gid: u32,
    pub members: Vec<String>,
}

/// The password-ageing record of an account; day counts are days since
/// 1970-01-01.
#[derive(Debug, Clone)]
pub struct Shadow {
    pub name: String,
    pub passwd: String,
    pub last_change: i64,
    pub change_min_days: i64,
    pub change_max_days: i64,
    pub change_warn_days: i64,
    pub change_inactive_days: Option<i64>,
    pub expire_date: Option<i64>,
}

pub struct PasswdView {
    pub name: Seq<char>,
    pub id: u32,
    pub gecos: Seq<char>,
    pub dir: Seq<char>,
    pub shell: Seq<char>,
}

pub struct GroupView {
    pub name: Seq<char>,
    pub gid: u32,
    pub members: Seq<Seq<char>>,
}

pub struct ShadowView {
    pub name: Seq<char>,
    pub passwd: Seq<char>,
    pub last_change: i64,
    pub change_min_days: i64,
    pub change_max_days: i64,
    pub change_warn_days: i64,
    pub change_inactive_days: Option<i64>,
    pub expire_date: Option<i64>,
}

impl View for Passwd {
    type V = PasswdView;

    open spec fn view(&self) -> PasswdView {
        PasswdView {
            name: self.name@,
            id: self.id,
            gecos: self.gecos@,
            dir: self.dir@,
            shell: self.shell@,
        }
    }
}

impl DeepView for Passwd {
    type V = PasswdView;

    open spec fn deep_view(&self) -> PasswdView {
        self@
    }
}

impl View for Group {
    type V = GroupView;

    open spec fn view(&self) -> GroupView {
        GroupView { name: self.name@, gid: self.gid, members: string_views(self.members@) }
    }
}

impl DeepView for Group {
    type V = GroupView;

    open spec fn deep_view(&self) -> GroupView {
        self@
    }
}

impl View for Shadow {
    type V = ShadowView;

    open spec fn view(&self) -> ShadowView {
        ShadowView {
            name: self.name@,
            passwd: self.passwd@,
            last_change: self.last_change,
            change_min_days: self.change_min_days,
            change_max_days: self.change_max_days,
            change_warn_days: self.change_warn_days,
            change_inactive_days: self.change_inactive_days,
            expire_date: self.expire_date,
        }
    }
}

impl DeepView for Shadow {
    type V = ShadowView;

    open spec fn deep_view(&self) -> ShadowView {
        self@
    }
}

/// Text that can stand in a field: no field separator, no line break.
pub open spec fn field_ok(s: Seq<char>) -> bool {
    free_of(s, ':') && free_of(s, '\n')
}

/// A name: a non-empty field.
pub open spec fn name_ok(s: Seq<char>) -> bool {
    s.len() > 0 && field_ok(s)
}

pub open spec fn passwd_valid(p: PasswdView) -> bool {
    name_ok(p.name) && field_ok(p.gecos) && field_ok(p.dir) && field_ok(p.shell)
}

pub open spec fn group_valid(g: GroupView) -> bool {
    &&& name_ok(g.name)
    &&& forall|i: int|
        0 <= i < g.members.len() ==> name_ok(#[trigger] g.members[i]) && free_of(
            g.members[i],
            ',',
        )
}

pub open spec fn shadow_valid(s: ShadowView) -> bool {
    name_ok(s.name) && field_ok(s.passwd)
}

/// The password placeholder written in `passwd` and `group` lines.
pub open spec fn placeholder() -> Seq<char> {
    seq!['x']
}

/// The fields of the `passwd` line of `p`.
pub open spec fn passwd_fields(p: PasswdView) -> Seq<Seq<char>> {
    seq![
        p.name,
        placeholder(),
        decimal(p.id as nat),
        decimal(p.id as nat),
        p.gecos,
        p.dir,
        p.shell,
    ]
}

pub open spec fn passwd_line(p: PasswdView) -> Seq<char> {
    join(passwd_fields(p), ':')
}

/// The record of a `passwd` line: seven fields, a non-empty name and a
/// numeric user id. The password and group id fields are not read.
pub open spec fn passwd_from_line(line: Seq<char>) -> Option<PasswdView> {
    let f = split(line, ':');
    if f.len() == 7 && f[0].len() > 0 {
        match parse_u32(f[2]) {
            Some(id) => Some(PasswdView { name: f[0], id, gecos: f[4], dir: f[5], shell: f[6] }),
            None => None,
        }
    } else {
        None
    }
}

/// The members field: empty for no members, else the names between commas.
pub open spec fn members_from(s: Seq<char>) -> Seq<Seq<char>> {
    if s.len() == 0 {
        Seq::empty()
    } else {
        split(s, ',')
    }
}

pub open spec fn group_fields(g: GroupView) -> Seq<Seq<char>> {
    seq![g.name, placeholder(), decimal(g.gid as nat), join(g.members, ',')]
}

pub open spec fn group_line(g: GroupView) -> Seq<char> {
    join(group_fields(g), ':')
}

/// The record of a `group` line: four fields, a non-empty name and a numeric
/// group id. The password field is not read.
pub open spec fn group_from_line(line: Seq<char>) -> Option<GroupView> {
    let f = split(line, ':');
    if f.len() == 4 && f[0].len() > 0 {
        match parse_u32(f[2]) {
            Some(gid) => Some(GroupView { name: f[0], gid, members: members_from(f[3]) }),
            None => None,
        }
    } else {
        None
    }
}

/// An optional day count: the empty field when absent.
pub open spec fn opt_text(v: Option<i64>) -> Seq<char> {
    match v {
        Some(d) => int_text(d as int),
        None => Seq::empty(),
    }
}

/// Reads an optional day count; `None` when the field is malformed.
pub open spec fn parse_opt_i64(s: Seq<char>) -> Option<Option<i64>> {
    if s.len() == 0 {
        Some(None)
    } else {
        match parse_i64(s) {
            Some(v) => Some(Some(v)),
            None => None,
        }
    }
}

pub open spec fn shadow_fields(s: ShadowView) -> Seq<Seq<char>> {
    seq![
        s.name,
        s.passwd,
        int_text(s.last_change as int),
        int_text(s.change_min_days as int),
        int_text(s.change_max_days as int),
        int_text(s.change_warn_days as int),
        opt_text(s.change_inactive_days),
        opt_text(s.expire_date),
        Seq::empty(),
    ]
}

pub open spec fn shadow_line(s: ShadowView) -> Seq<char> {
    join(shadow_fields(s), ':')
}

/// The record of a `shadow` line: nine fields, a non-empty name, four day
/// counts and two optional ones. The last, reserved field is not read.
pub open spec fn shadow_from_line(line: Seq<char>) -> Option<ShadowView> {
    let f = split(line, ':');
    if f.len() == 9 && f[0].len() > 0 && parse_i64(f[2]) is Some && parse_i64(f[3]) is Some
        && parse_i64(f[4]) is Some && parse_i64(f[5]) is Some && parse_opt_i64(f[6]) is Some
        && parse_opt_i64(f[7]) is Some {
        Some(
            ShadowView {
                name: f[0],
                passwd: f[1],
                last_change: parse_i64(f[2])->0,
                change_min_days: parse_i64(f[3])->0,
                change_max_days: parse_i64(f[4])->0,
                change_warn_days: parse_i64(f[5])->0,
                change_inactive_days: parse_opt_i64(f[6])->0,
                expire_date: parse_opt_i64(f[7])->0,
            },
        )
    } else {
        None
    }
}

proof fn lemma_decimal_field(n: nat)
    ensures
        field_ok(decimal(n)),
        free_of(decimal(n), ','),
        parse_nat_of_decimal(n),
{
    lemma_decimal(n);
    lemma_digits_free(decimal(n), ':');
    lemma_digits_free(decimal(n), '\n');
    lemma_digits_free(decimal(n), ',');
    lemma_parse_decimal(n);
}

/// The decimal writing of `n` reads back as `n`.
pub open spec fn parse_nat_of_decimal(n: nat) -> bool {
    crate::text::parse_nat(decimal(n)) == Some(n)
}

proof fn lemma_int_field(v: i64)
    ensures
        field_ok(int_text(v as int)),
        parse_i64(int_text(v as int)) == Some(v),
        int_text(v as int).len() > 0,
{
    lemma_parse_int_text(v as int);
    let t = int_text(v as int);
    assert(free_of(t, ':'));
    assert(free_of(t, '\n'));
}

proof fn lemma_opt_field(v: Option<i64>)
    ensures
        field_ok(opt_text(v)),
        parse_opt_i64(opt_text(v)) == Some(v),
{
    match v {
        Some(d) => lemma_int_field(d),
        None => {},
    }
}

/// A valid `passwd` record survives formatting and parsing unchanged.
pub proof fn lemma_passwd_round_trip(p: PasswdView)
    requires
        passwd_valid(p),
    ensures
        passwd_from_line(passwd_line(p)) == Some(p),
{
    let f = passwd_fields(p);
    lemma_decimal_field(p.id as nat);
    assert forall|i: int| 0 <= i < f.len() implies free_of(#[trigger] f[i], ':') by {}
    lemma_split_join(f, ':');
}

/// A valid `group` record survives formatting and parsing unchanged.
pub proof fn lemma_group_round_trip(g: GroupView)
    requires
        group_valid(g),
    ensures
        group_from_line(group_line(g)) == Some(g),
{
    let m = g.members;
    assert forall|i: int| 0 <= i < m.len() implies free_of(#[trigger] m[i], ',') by {}
    assert forall|i: int| 0 <= i < m.len() implies free_of(#[trigger] m[i], ':') by {}
    lemma_join_free(m, ',', ':');
    if m.len() > 0 {
        lemma_split_join(m, ',');
        lemma_join_nonempty(m, ',');
    }
    let f = group_fields(g);
    lemma_decimal_field(g.gid as nat);
    assert forall|i: int| 0 <= i < f.len() implies free_of(#[trigger] f[i], ':') by {}
    lemma_split_join(f, ':');
    assert(members_from(join(m, ',')) =~= m);
}

/// A valid `shadow` record survives formatting and parsing unchanged.
pub proof fn lemma_shadow_round_trip(s: ShadowView)
    requires
        shadow_valid(s),
    ensures
        shadow_from_line(shadow_line(s)) == Some(s),
{
    lemma_int_field(s.last_change);
    lemma_int_field(s.change_min_days);
    lemma_int_field(s.change_max_days);
    lemma_int_field(s.change_warn_days);
    lemma_opt_field(s.change_inactive_days);
    lemma_opt_field(s.expire_date);
    let f = shadow_fields(s);
    assert forall|i: int| 0 <= i < f.len() implies free_of(#[trigger] f[i], ':') by {}
    lemma_split_join(f, ':');
}

/// A `passwd` line as this library writes it: the placeholder password, the
/// group id equal to the user id, and no superfluous leading zero.
pub open spec fn passwd_line_canonical(line: Seq<char>) -> bool {
    let f = split(line, ':');
    f.len() == 7 && f[1] == placeholder() && f[3] == f[2] && canonical_digits(f[2])
}

/// A `group` line as this library writes it: the placeholder password and no
/// superfluous leading zero.
pub open spec fn group_line_canonical(line: Seq<char>) -> bool {
    let f = split(line, ':');
    f.len() == 4 && f[1] == placeholder() && canonical_digits(f[2])
}

pub open spec fn opt_canonical(s: Seq<char>) -> bool {
    s.len() == 0 || canonical_int(s)
}

/// A `shadow` line as this library writes it: day counts with no
/// superfluous leading zero or sign, and an empty reserved field.
pub open spec fn shadow_line_canonical(line: Seq<char>) -> bool {
    let f = split(line, ':');
    &&& f.len() == 9
    &&& canonical_int(f[2]) && canonical_int(f[3]) && canonical_int(f[4]) && canonical_int(f[5])
    &&& opt_canonical(f[6]) && opt_canonical(f[7])
    &&& f[8].len() == 0
}

/// Formatting a parsed canonical `passwd` line gives the line back.
pub proof fn lemma_passwd_canonical(line: Seq<char>)
    requires
        passwd_from_line(line) is Some,
        passwd_line_canonical(line),
    ensures
        passwd_line(passwd_from_line(line)->0) == line,
{
    let f = split(line, ':');
    lemma_canonical_decimal(f[2]);
    assert(passwd_fields(passwd_from_line(line)->0) =~= f);
    lemma_join_split(line, ':');
}

/// Formatting a parsed canonical `group` line gives the line back.
pub proof fn lemma_group_canonical(line: Seq<char>)
    requires
        group_from_line(line) is Some,
        group_line_canonical(line),
    ensures
        group_line(group_from_line(line)->0) == line,
{
    let f = split(line, ':');
    lemma_canonical_decimal(f[2]);
    if f[3].len() > 0 {
        lemma_join_split(f[3], ',');
    } else {
        assert(join(Seq::<Seq<char>>::empty(), ',') =~= f[3]);
    }
    assert(group_fields(group_from_line(line)->0) =~= f);
    lemma_join_split(line, ':');
}

proof fn lemma_opt_canonical(s: Seq<char>)
    requires
        parse_opt_i64(s) is Some,
        opt_canonical(s),
    ensures
        opt_text(parse_opt_i64(s)->0) == s,
{
    if s.len() > 0 {
        lemma_canonical_int(s);
    }
}

/// Formatting a parsed canonical `shadow` line gives the line back.
pub proof fn lemma_shadow_canonical(line: Seq<char>)
    requires
        shadow_from_line(line) is Some,
        shadow_line_canonical(line),
    ensures
        shadow_line(shadow_from_line(line)->0) == line,
{
    let f = split(line, ':');
    lemma_canonical_int(f[2]);
    lemma_canonical_int(f[3]);
    lemma_canonical_int(f[4]);
    lemma_canonical_int(f[5]);
    lemma_opt_canonical(f[6]);
    lemma_opt_canonical(f[7]);
    assert(int_text(parse_i64(f[2])->0 as int) == f[2]);
    assert(int_text(parse_i64(f[3])->0 as int) == f[3]);
    assert(int_text(parse_i64(f[4])->0 as int) == f[4]);
    assert(int_text(parse_i64(f[5])->0 as int) == f[5]);
    assert(f[8] =~= Seq::<char>::empty());
    assert(shadow_fields(shadow_from_line(line)->0) =~= f);
    lemma_join_split(line, ':');
}

fn placeholder_string() -> (r: String)
    ensures
        r@ == placeholder(),
{
    proof {
        reveal_strlit("x");
    }
    string_from("x")
}

/// A copy of `s` with the same characters.
fn copy_string(s: &String) -> (r: String)
    ensures
        r@ == s@,
{
    s.clone()
}

fn copy_strings(v: &Vec<String>) -> (r: Vec<String>)
    ensures
        string_views(r@) == string_views(v@),
{
    let mut r: Vec<String> = Vec::new();
    for i in 0..v.len()
        invariant
            string_views(r@) == string_views(v@.subrange(0, i as int)),
    {
        let s = copy_string(&v[i]);
        let ghost old_r = r@;
        r.push(s);
        assert(v@.subrange(0, i + 1) =~= v@.subrange(0, i as int).push(v@[i as int]));
        assert(string_views(r@) =~= string_views(old_r).push(s@));
        assert(string_views(v@.subrange(0, i + 1)) =~= string_views(
            v@.subrange(0, i as int),
        ).push(v@[i as int]@));
    }
    assert(v@.subrange(0, v@.len() as int) =~= v@);
    r
}

impl Passwd {
    /// Reads a `passwd` line, given without its line break.
    pub fn from_chars(line: &Vec<char>) -> (r: Option<Passwd>)
        ensures
            r.deep_view() == passwd_from_line(line@),
    {
        let f = split_chars(line, ':');
        assert(views(f@).len() == f@.len());
        if f.len() != 7 || f[0].len() == 0 {
            return None;
        }
        proof {
            assert forall|i: int| 0 <= i < 7 implies views(f@)[i] == (#[trigger] f@[i])@ by {}
        }
        match parse_u32_chars(&f[2]) {
            None => None,
            Some(id) => Some(
                Passwd {
                    name: string_of(&f[0]),
                    id,
                    gecos: string_of(&f[4]),
                    dir: string_of(&f[5]),
                    shell: string_of(&f[6]),
                },
            ),
        }
    }

    /// Reads a `passwd` line, given without its line break.
    pub fn parse_line(line: &str) -> (r: Option<Passwd>)
        ensures
            r.deep_view() == passwd_from_line(line@),
    {
        Passwd::from_chars(&chars_of(line))
    }

    /// The `passwd` line of this record, without a line break. The group id
    /// field repeats the user id.
    pub fn format_line(&self) -> (r: String)
        ensures
            r@ == passwd_line(self@),
    {
        let mut parts: Vec<String> = Vec::new();
        parts.push(copy_string(&self.name));
        parts.push(placeholder_string());
        parts.push(decimal_string(self.id as u64));
        parts.push(decimal_string(self.id as u64));
        parts.push(copy_string(&self.gecos));
        parts.push(copy_string(&self.dir));
        parts.push(copy_string(&self.shell));
        assert(string_views(parts@) =~= passwd_fields(self@));
        join_strings(&parts, ':')
    }

    /// A copy of this record.
    pub fn duplicate(&self) -> (r: Passwd)
        ensures
            r@ == self@,
    {
        Passwd {
            name: copy_string(&self.name),
            id: self.id,
            gecos: copy_string(&self.gecos),
            dir: copy_string(&self.dir),
            shell: copy_string(&self.shell),
        }
    }
}

impl Group {
    /// Reads a `group` line, given without its line break.
    pub fn from_chars(line: &Vec<char>) -> (r: Option<Group>)
        ensures
            r.deep_view() == group_from_line(line@),
    {
        let f = split_chars(line, ':');
        assert(views(f@).len() == f@.len());
        if f.len() != 4 || f[0].len() == 0 {
            return None;
        }
        proof {
            assert forall|i: int| 0 <= i < 4 implies views(f@)[i] == (#[trigger] f@[i])@ by {}
        }
        match parse_u32_chars(&f[2]) {
            None => None,
            Some(gid) => {
                let members = if f[3].len() == 0 {
                    let e: Vec<String> = Vec::new();
                    assert(string_views(e@) =~= Seq::<Seq<char>>::empty());
                    e
                } else {
                    strings_of(&split_chars(&f[3], ','))
                };
                Some(Group { name: string_of(&f[0]), gid, members })
            },
        }
    }

    /// Reads a `group` line, given without its line break.
    pub fn parse_line(line: &str) -> (r: Option<Group>)
        ensures
            r.deep_view() == group_from_line(line@),
    {
        Group::from_chars(&chars_of(line))
    }

    /// The `group` line of this record, without a line break.
    pub fn format_line(&self) -> (r: String)
        ensures
            r@ == group_line(self@),
    {
        let mut parts: Vec<String> = Vec::new();
        parts.push(copy_string(&self.name));
        parts.push(placeholder_string());
        parts.push(decimal_string(self.gid as u64));
        parts.push(join_strings(&self.members, ','));
        assert(string_views(parts@) =~= group_fields(self@));
        join_strings(&parts, ':')
    }

    /// A copy of this record.
    pub fn duplicate(&self) -> (r: Group)
        ensures
            r@ == self@,
    {
        Group { name: copy_string(&self.name), gid: self.gid, members: copy_strings(&self.members) }
    }
}

fn parse_opt_i64_chars(s: &Vec<char>) -> (r: Option<Option<i64>>)
    ensures
        r == parse_opt_i64(s@),
{
    if s.len() == 0 {
        Some(None)
    } else {
        match parse_i64_chars(s) {
            Some(v) => Some(Some(v)),
            None => None,
        }
    }
}

fn opt_string(v: Option<i64>) -> (r: String)
    ensures
        r@ == opt_text(v),
{
    match v {
        Some(d) => int_string(d),
        None => String::new(),
    }
}

impl Shadow {
    /// Reads a `shadow` line, given without its line break.
    pub fn from_chars(line: &Vec<char>) -> (r: Option<Shadow>)
        ensures
            r.deep_view() == shadow_from_line(line@),
    {
        let f = split_chars(line, ':');
        assert(views(f@).len() == f@.len());
        if f.len() != 9 || f[0].len() == 0 {
            return None;
        }
        proof {
            assert forall|i: int| 0 <= i < 9 implies views(f@)[i] == (#[trigger] f@[i])@ by {}
        }
        let last_change = match parse_i64_chars(&f[2]) {
            Some(v) => v,
            None => return None,
        };
        let change_min_days = match parse_i64_chars(&f[3]) {
            Some(v) => v,
            None => return None,
        };
        let change_max_days = match parse_i64_chars(&f[4]) {
            Some(v) => v,
            None => return None,
        };
        let change_warn_days = match parse_i64_chars(&f[5]) {
            Some(v) => v,
            None => return None,
        };
        let change_inactive_days = match parse_opt_i64_chars(&f[6]) {
            Some(v) => v,
            None => return None,
        };
        let expire_date = match parse_opt_i64_chars(&f[7]) {
            Some(v) => v,
            None => return None,
        };
        Some(
            Shadow {
                name: string_of(&f[0]),
                passwd: string_of(&f[1]),
                last_change,
                change_min_days,
                change_max_days,
                change_warn_days,
                change_inactive_days,
                expire_date,
            },
        )
    }

    /// Reads a `shadow` line, given without its line break.
    pub fn parse_line(line: &str) -> (r: Option<Shadow>)
        ensures
            r.deep_view() == shadow_from_line(line@),
    {
        Shadow::from_chars(&chars_of(line))
    }

    /// The `shadow` line of this record, without a line break; an absent day
    /// count is an empty field, and the reserved last field is empty.
    pub fn format_line(&self) -> (r: String)
        ensures
            r@ == shadow_line(self@),
    {
        let mut parts: Vec<String> = Vec::new();
        parts.push(copy_string(&self.name));
        parts.push(copy_string(&self.passwd));
        parts.push(int_string(self.last_change));
        parts.push(int_string(self.change_min_days));
        parts.push(int_string(self.change_max_days));
        parts.push(int_string(self.change_warn_days));
        parts.push(opt_string(self.change_inactive_days));
        parts.push(opt_string(self.expire_date));
        parts.push(String::new());
        assert(string_views(parts@) =~= shadow_fields(self@));
        join_strings(&parts, ':')
    }

    /// A copy of this record.
    pub fn duplicate(&self) -> (r: Shadow)
        ensures
            r@ == self@,
    {
        Shadow {
            name: copy_string(&self.name),
            passwd: copy_string(&self.passwd),
            last_change: self.last_change,
            change_min_days: self.change_min_days,
            change_max_days: self.change_max_days,
            change_warn_days: self.change_warn_days,
            change_inactive_days: self.change_inactive_days,
            expire_date: self.expire_date,
        }
    }
}

} // verus!
