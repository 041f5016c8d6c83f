//! The device-access controller: the structured form of device rules, the
//! character codecs for device types and permissions, the renderer for the
//! kernel's `devices.allow` / `devices.deny` record format, and the parser
//! for the kernel's `devices.list` report format.

use vstd::prelude::*;

use crate::error::CgroupError;
use crate::text::{
    chars_to_string, dec_chars_i64, lines_of, parse_i64_chars, spec_dec_int, spec_lines,
    spec_parse_i64, spec_split2, split2_chars, str_to_chars,
};

verus! {

/// The class of device a rule applies to.
#[derive(Debug, Copy, Clone, PartialEq, Eq, Structural)]
pub enum DeviceType {
    /// The rule applies to all devices.
    All,
    /// The rule only applies to character devices.
    Char,
    /// The rule only applies to block devices.
    Block,
}

impl Default for DeviceType {
    fn default() -> (r: Self)
        ensures
            r == DeviceType::All,
    {
        DeviceType::All
    }
}

/// The kernel's single-character encoding of a device type.
pub open spec fn spec_device_type_char(t: DeviceType) -> char {
    match t {
        DeviceType::All => 'a',
        DeviceType::Char => 'c',
        DeviceType::Block => 'b',
    }
}

/// The device type a character decodes to, if any.
pub open spec fn spec_device_type_from_char(c: Option<char>) -> Option<DeviceType> {
    match c {
        Some(x) => if x == 'a' {
            Some(DeviceType::All)
        } else if x == 'c' {
            Some(DeviceType::Char)
        } else if x == 'b' {
            Some(DeviceType::Block)
        } else {
            None
        },
        None => None,
    }
}

impl DeviceType {
    /// The character that the kernel uses for this device type.
    pub fn to_char(&self) -> (c: char)
        ensures
            c == spec_device_type_char(*self),
    {
        match self {
            DeviceType::All => 'a',
            DeviceType::Char => 'c',
            DeviceType::Block => 'b',
        }
    }

    /// Decodes the kernel's character for a device type.
    pub fn from_char(c: Option<char>) -> (r: Option<DeviceType>)
        ensures
            r == spec_device_type_from_char(c),
    {
        match c {
            Some('a') => Some(DeviceType::All),
            Some('c') => Some(DeviceType::Char),
            Some('b') => Some(DeviceType::Block),
            _ => None,
        }
    }
}

/// Every device-type value decodes back from its own encoding, and no other
/// character decodes at all.
pub proof fn lemma_device_type_char_roundtrip(t: DeviceType, c: Option<char>)
    ensures
        spec_device_type_from_char(Some(spec_device_type_char(t))) == Some(t),
        spec_device_type_from_char(c) is None <==> (c is None || (c != Some('a') && c != Some('c')
            && c != Some('b'))),
{
}

/// One kind of access a device rule can grant or withhold.
#[derive(Debug, Copy, Clone, PartialEq, Eq, Structural)]
pub enum DevicePermissions {
    /// Permission to read from the device.
    Read,
    /// Permission to write to the device.
    Write,
    /// Permission to create a device node with `mknod(2)`.
    MkNod,
}

/// The kernel's single-character encoding of a permission.
pub open spec fn spec_perm_char(p: DevicePermissions) -> char {
    match p {
        DevicePermissions::Read => 'r',
        DevicePermissions::Write => 'w',
        DevicePermissions::MkNod => 'm',
    }
}

/// The permission a character decodes to, if any.
pub open spec fn spec_perm_from_char(c: char) -> Option<DevicePermissions> {
    if c == 'r' {
        Some(DevicePermissions::Read)
    } else if c == 'w' {
        Some(DevicePermissions::Write)
    } else if c == 'm' {
        Some(DevicePermissions::MkNod)
    } else {
        None
    }
}

/// The kernel encoding of a permission list: one character per entry, in the
/// list's own order.
pub open spec fn spec_perm_chars(ps: Seq<DevicePermissions>) -> Seq<char> {
    ps.map_values(|p: DevicePermissions| spec_perm_char(p))
}

/// The permission list a string decodes to: every character must decode, and
/// the order is kept. The empty string decodes to the empty list.
pub open spec fn spec_perms_from_chars(s: Seq<char>) -> Option<Seq<DevicePermissions>>
    decreases s.len(),
{
    if s.len() == 0 {
        Some(Seq::<DevicePermissions>::empty())
    } else {
        match spec_perms_from_chars(s.drop_last()) {
            Some(r) => match spec_perm_from_char(s[s.len() - 1]) {
                Some(p) => Some(r.push(p)),
                None => None,
            },
            None => None,
        }
    }
}

proof fn lemma_perm_chars_index(ps: Seq<DevicePermissions>)
    ensures
        spec_perm_chars(ps).len() == ps.len(),
        forall|i: int| 0 <= i < ps.len() ==> spec_perm_chars(ps)[i] == spec_perm_char(ps[i]),
{
}

proof fn lemma_perms_prefix_none(s: Seq<char>, k: int)
    requires
        0 <= k <= s.len(),
        spec_perms_from_chars(s.take(k)) is None,
    ensures
        spec_perms_from_chars(s) is None,
    decreases s.len() - k,
{
    if k < s.len() {
        let t = s.take(k + 1);
        assert(t.drop_last() =~= s.take(k));
        lemma_perms_prefix_none(s, k + 1);
    } else {
        assert(s.take(k) =~= s);
    }
}

impl DevicePermissions {
    /// The character that the kernel uses for this permission.
    pub fn to_char(&self) -> (c: char)
        ensures
            c == spec_perm_char(*self),
    {
        match self {
            DevicePermissions::Read => 'r',
            DevicePermissions::Write => 'w',
            DevicePermissions::MkNod => 'm',
        }
    }

    /// Decodes the kernel's character for a permission.
    pub fn from_char(c: char) -> (r: Option<DevicePermissions>)
        ensures
            r == spec_perm_from_char(c),
    {
        match c {
            'r' => Some(DevicePermissions::Read),
            'w' => Some(DevicePermissions::Write),
            'm' => Some(DevicePermissions::MkNod),
            _ => None,
        }
    }

    /// Whether `s` is a non-empty string of permission characters.
    pub fn is_valid(s: &str) -> (b: bool)
        ensures
            b == (s@.len() > 0 && (forall|i: int|
                0 <= i < s@.len() ==> spec_perm_from_char(s@[i]) is Some)),
    {
        let n = s.unicode_len();
        if n == 0 {
            return false;
        }
        let mut i: usize = 0;
        while i < n
            invariant
                0 <= i <= n == s@.len(),
                forall|j: int| 0 <= j < i ==> spec_perm_from_char(s@[j]) is Some,
            decreases n - i,
        {
            let c = s.get_char(i);
            if c != 'r' && c != 'w' && c != 'm' {
                return false;
            }
            i += 1;
        }
        true
    }

    /// Every permission a device rule can carry, in the canonical order.
    pub fn all() -> (r: Vec<DevicePermissions>)
        ensures
            r@ == seq![
                DevicePermissions::Read,
                DevicePermissions::Write,
                DevicePermissions::MkNod,
            ],
    {
        let mut r: Vec<DevicePermissions> = Vec::new();
        r.push(DevicePermissions::Read);
        r.push(DevicePermissions::Write);
        r.push(DevicePermissions::MkNod);
        assert(r@ =~= seq![
            DevicePermissions::Read,
            DevicePermissions::Write,
            DevicePermissions::MkNod,
        ]);
        r
    }

    /// Decodes a permission string; fails on any character outside the
    /// kernel's permission alphabet. The empty string decodes to the empty
    /// list.
    pub fn from_str(s: &str) -> (r: Result<Vec<DevicePermissions>, CgroupError>)
        ensures
            match r {
                Ok(ps) => spec_perms_from_chars(s@) == Some(ps@),
                Err(e) => spec_perms_from_chars(s@) is None && e == CgroupError::ParseError,
            },
    {
        let chars = str_to_chars(s);
        perms_from_char_vec(&chars)
    }
}

/// Decodes a vector of permission characters; the character-level core of
/// `DevicePermissions::from_str`.
fn perms_from_char_vec(v: &Vec<char>) -> (r: Result<Vec<DevicePermissions>, CgroupError>)
    ensures
        match r {
            Ok(ps) => spec_perms_from_chars(v@) == Some(ps@),
            Err(e) => spec_perms_from_chars(v@) is None && e == CgroupError::ParseError,
        },
{
    let n = v.len();
    let mut out: Vec<DevicePermissions> = Vec::new();
    let mut i: usize = 0;
    proof {
        assert(v@.take(0) =~= Seq::<char>::empty());
    }
    while i < n
        invariant
            0 <= i <= n == v@.len(),
            spec_perms_from_chars(v@.take(i as int)) == Some(out@),
        decreases n - i,
    {
        proof {
            assert(v@.take(i + 1).drop_last() =~= v@.take(i as int));
            assert(v@.take(i + 1)[i as int] == v@[i as int]);
        }
        match DevicePermissions::from_char(v[i]) {
            Some(p) => {
                out.push(p);
            },
            None => {
                proof {
                    lemma_perms_prefix_none(v@, i + 1);
                }
                return Err(CgroupError::ParseError);
            },
        }
        i += 1;
    }
    proof {
        assert(v@.take(n as int) =~= v@);
    }
    Ok(out)
}

/// Decoding never loses or reorders anything: a non-empty string over the
/// permission alphabet decodes, and re-encoding the decoded list reproduces
/// the string exactly; a string with any character outside the alphabet
/// fails to decode.
pub proof fn lemma_perm_chars_roundtrip(s: Seq<char>)
    ensures
        (forall|i: int| 0 <= i < s.len() ==> spec_perm_from_char(s[i]) is Some)
            ==> (spec_perms_from_chars(s) matches Some(ps) && spec_perm_chars(ps) == s),
        (exists|i: int| 0 <= i < s.len() && spec_perm_from_char(s[i]) is None)
            ==> spec_perms_from_chars(s) is None,
    decreases s.len(),
{
    if s.len() > 0 {
        lemma_perm_chars_roundtrip(s.drop_last());
        if forall|i: int| 0 <= i < s.len() ==> spec_perm_from_char(s[i]) is Some {
            assert(forall|i: int|
                0 <= i < s.drop_last().len() ==> spec_perm_from_char(
                    #[trigger] s.drop_last()[i],
                ) is Some);
            let prev = spec_perms_from_chars(s.drop_last()).unwrap();
            let p = spec_perm_from_char(s[s.len() - 1]).unwrap();
            assert(spec_perm_chars(prev) == s.drop_last());
            lemma_perm_chars_index(prev);
            lemma_perm_chars_index(prev.push(p));
            assert(prev.len() == s.len() - 1);
            assert forall|i: int|
                0 <= i < s.len() implies spec_perm_chars(prev.push(p))[i] == s[i] by {
                if i < s.len() - 1 {
                    assert(prev.push(p)[i] == prev[i]);
                    assert(spec_perm_chars(prev)[i] == s.drop_last()[i]);
                    assert(s.drop_last()[i] == s[i]);
                } else {
                    assert(prev.push(p)[i] == p);
                    assert(spec_perm_char(p) == s[s.len() - 1]);
                }
            }
            assert(spec_perm_chars(prev.push(p)) =~= s);
        } else {
            let i = choose|i: int| 0 <= i < s.len() && spec_perm_from_char(s[i]) is None;
            if i < s.len() - 1 {
                assert(spec_perm_from_char(s.drop_last()[i]) is None);
            }
        }
    }
}

/// One device rule: whether it is an allow or a deny entry, the device class,
/// the major and minor numbers (`-1` meaning "any"), and the granted
/// permissions. This is the mathematical form used in contracts.
pub ghost struct DeviceRule {
    pub allow: bool,
    pub devtype: DeviceType,
    pub major: int,
    pub minor: int,
    pub access: Seq<DevicePermissions>,
}

/// One device rule as policy authors build it and as `devices.list` reports
/// it.
#[derive(Debug, Clone, PartialEq, Eq)]
pub struct DeviceResource {
    /// Whether this is a whitelist (allow) entry.
    pub allow: bool,
    /// The class of device the rule covers.
    pub devtype: DeviceType,
    /// The major device number; `-1` means any major.
    pub major: i64,
    /// The minor device number; `-1` means any minor.
    pub minor: i64,
    /// The permissions the rule grants.
    pub access: Vec<DevicePermissions>,
}

impl View for DeviceResource {
    type V = DeviceRule;

    open spec fn view(&self) -> DeviceRule {
        DeviceRule {
            allow: self.allow,
            devtype: self.devtype,
            major: self.major as int,
            minor: self.minor as int,
            access: self.access@,
        }
    }
}

impl DeepView for DeviceResource {
    type V = DeviceRule;

    open spec fn deep_view(&self) -> DeviceRule {
        self.view()
    }
}

/// The ordered device-rule section of a resource policy; the order is the
/// order in which rules are written to the kernel.
#[derive(Debug, Clone, Default)]
pub struct DeviceResources {
    /// The rules, in application order.
    pub devices: Vec<DeviceResource>,
}

/// The composite resource policy handed to a controller; this core carries
/// its device section.
#[derive(Debug, Clone, Default)]
pub struct Resources {
    /// The device-access section of the policy.
    pub devices: DeviceResources,
}

/// The rendering of a major or minor number: `*` for the "any" sentinel `-1`,
/// the decimal number otherwise.
pub open spec fn spec_device_num(n: int) -> Seq<char> {
    if n == -1 {
        seq!['*']
    } else {
        spec_dec_int(n)
    }
}

/// The exact record the kernel expects in `devices.allow` / `devices.deny`:
/// `<type> <major>:<minor> <permissions>`.
pub open spec fn spec_device_rule_text(
    t: DeviceType,
    major: int,
    minor: int,
    ps: Seq<DevicePermissions>,
) -> Seq<char> {
    seq![spec_device_type_char(t), ' '] + spec_device_num(major) + seq![':'] + spec_device_num(
        minor,
    ) + seq![' '] + spec_perm_chars(ps)
}

/// Renders a major or minor number for a device rule.
fn device_num_chars(n: i64) -> (v: Vec<char>)
    ensures
        v@ == spec_device_num(n as int),
{
    if n == -1 {
        let mut v: Vec<char> = Vec::new();
        v.push('*');
        assert(v@ =~= seq!['*']);
        v
    } else {
        dec_chars_i64(n)
    }
}

/// Renders the encoding of a permission list.
fn perm_char_vec(ps: &[DevicePermissions]) -> (v: Vec<char>)
    ensures
        v@ == spec_perm_chars(ps@),
{
    let n = ps.len();
    let mut v: Vec<char> = Vec::new();
    let mut i: usize = 0;
    while i < n
        invariant
            0 <= i <= n == ps@.len(),
            v@ =~= spec_perm_chars(ps@.take(i as int)),
        decreases n - i,
    {
        v.push(ps[i].to_char());
        assert(v@ =~= spec_perm_chars(ps@.take(i + 1))) by {
            assert(spec_perm_chars(ps@.take(i + 1)) =~= spec_perm_chars(ps@.take(i as int)).push(
                spec_perm_char(ps@[i as int]),
            ));
        }
        i += 1;
    }
    assert(ps@.take(n as int) =~= ps@);
    v
}

/// Renders one device rule in the kernel's record format.
fn render_device_rule(
    devtype: DeviceType,
    major: i64,
    minor: i64,
    perm: &[DevicePermissions],
) -> (payload: String)
    ensures
        payload@ == spec_device_rule_text(devtype, major as int, minor as int, perm@),
{
    let mut v: Vec<char> = Vec::new();
    v.push(devtype.to_char());
    v.push(' ');
    let mut major_chars = device_num_chars(major);
    v.append(&mut major_chars);
    v.push(':');
    let mut minor_chars = device_num_chars(minor);
    v.append(&mut minor_chars);
    v.push(' ');
    let mut perms = perm_char_vec(perm);
    v.append(&mut perms);
    proof {
        assert(v@ =~= spec_device_rule_text(devtype, major as int, minor as int, perm@));
    }
    chars_to_string(&v)
}

/// The record a device write would carry: the payload text and whether it is
/// aimed at `devices.allow` (true) or `devices.deny` (false).
#[derive(Debug, Clone)]
pub struct DeviceWrite {
    /// Whether the record belongs in `devices.allow` rather than
    /// `devices.deny`.
    pub allow: bool,
    /// The exact text of the record.
    pub payload: String,
}

/// The handle for one cgroup's `devices` controller files: the hierarchy's
/// mount root and the controller's path within it. The three kernel files
/// `devices.allow`, `devices.deny` and `devices.list` live under the path.
#[derive(Debug, Clone)]
pub struct DevicesController {
    /// The root of the hierarchy the controller was resolved from.
    pub base: String,
    /// The directory holding the controller's kernel files.
    pub path: String,
}

impl DevicesController {
    /// A controller handle over the given mount point and root.
    pub fn new(point: String, root: String) -> (s: Self)
        ensures
            s.base@ == root@,
            s.path@ == point@,
    {
        DevicesController { base: root, path: point }
    }

    /// The directory holding the controller's kernel files.
    pub fn get_path(&self) -> (p: &String)
        ensures
            p@ == self.path@,
    {
        &self.path
    }

    /// The root of the hierarchy the controller was resolved from.
    pub fn get_base(&self) -> (b: &String)
        ensures
            b@ == self.base@,
    {
        &self.base
    }

    /// Points the controller at another directory, as done when it is
    /// attached to a named cgroup; the base is kept.
    pub fn set_path(&mut self, path: String)
        ensures
            final(self).path@ == path@,
            final(self).base@ == old(self).base@,
    {
        self.path = path;
    }

    /// The record that allows the described devices: the exact text to append
    /// to this controller's `devices.allow` file.
    ///
    /// A major or minor of `-1` renders as `*`, which the kernel reads as
    /// "any".
    pub fn allow_device(
        &self,
        devtype: DeviceType,
        major: i64,
        minor: i64,
        perm: &[DevicePermissions],
    ) -> (payload: String)
        ensures
            payload@ == spec_device_rule_text(devtype, major as int, minor as int, perm@),
    {
        render_device_rule(devtype, major, minor, perm)
    }

    /// The record that denies the described devices: the exact text to append
    /// to this controller's `devices.deny` file.
    ///
    /// A major or minor of `-1` renders as `*`, which the kernel reads as
    /// "any".
    pub fn deny_device(
        &self,
        devtype: DeviceType,
        major: i64,
        minor: i64,
        perm: &[DevicePermissions],
    ) -> (payload: String)
        ensures
            payload@ == spec_device_rule_text(devtype, major as int, minor as int, perm@),
    {
        render_device_rule(devtype, major, minor, perm)
    }

    /// The writes that apply the device section of a policy: one record per
    /// rule, in the policy's own order, each aimed at `devices.allow` or
    /// `devices.deny` according to the rule's `allow` flag. The caller
    /// performs them in this order and stops at the first failure.
    pub fn apply(&self, res: &Resources) -> (w: Vec<DeviceWrite>)
        ensures
            w@.len() == res.devices.devices@.len(),
            forall|i: int|
                0 <= i < w@.len() ==> {
                    let rule = #[trigger] res.devices.devices@[i];
                    w@[i].allow == rule.allow && w@[i].payload@ == spec_device_rule_text(
                        rule.devtype,
                        rule.major as int,
                        rule.minor as int,
                        rule.access@,
                    )
                },
    {
        let rules = &res.devices.devices;
        let n = rules.len();
        let mut w: Vec<DeviceWrite> = Vec::new();
        let mut i: usize = 0;
        while i < n
            invariant
                0 <= i <= n == rules@.len(),
                w@.len() == i,
                forall|j: int|
                    0 <= j < i ==> {
                        let rule = #[trigger] rules@[j];
                        w@[j].allow == rule.allow && w@[j].payload@ == spec_device_rule_text(
                            rule.devtype,
                            rule.major as int,
                            rule.minor as int,
                            rule.access@,
                        )
                    },
            decreases n - i,
        {
            let rule = &rules[i];
            let payload = if rule.allow {
                self.allow_device(rule.devtype, rule.major, rule.minor, rule.access.as_slice())
            } else {
                self.deny_device(rule.devtype, rule.major, rule.minor, rule.access.as_slice())
            };
            w.push(DeviceWrite { allow: rule.allow, payload });
            i += 1;
        }
        w
    }

    /// Parses the full text of this controller's `devices.list` file. Every
    /// line must parse; one malformed line fails the whole read, with no
    /// partial result. Each parsed rule carries `allow = true`, since the
    /// kernel only reports currently allowed rules.
    pub fn allowed_devices(&self, list: &str) -> (r: Result<Vec<DeviceResource>, CgroupError>)
        ensures
            match r {
                Ok(v) => spec_parse_device_list(list@) == Some(v.deep_view()),
                Err(e) => spec_parse_device_list(list@) is None && e == CgroupError::ParseError,
            },
    {
        parse_device_list(list)
    }
}

/// The rule a `devices.list` line parses to, if any: split on spaces and
/// colons alike, the line must yield exactly the four fields
/// `<type> <major> <minor> <permissions>`, with the type field a single
/// character of the fixed device-type table.
pub open spec fn spec_parse_device_line(line: Seq<char>, allow: bool) -> Option<DeviceRule> {
    let parts = spec_split2(line, ' ', ':');
    if parts.len() != 4 {
        None
    } else {
        let tc = if parts[0].len() == 1 {
            Some(parts[0][0])
        } else {
            None
        };
        match spec_device_type_from_char(tc) {
            None => None,
            Some(dt) => match spec_parse_device_number(parts[1]) {
                None => None,
                Some(major) => match spec_parse_device_number(parts[2]) {
                    None => None,
                    Some(minor) => match spec_perms_from_chars(parts[3]) {
                        None => None,
                        Some(access) => Some(
                            DeviceRule { allow, devtype: dt, major, minor, access },
                        ),
                    },
                },
            },
        }
    }
}

/// The number a major/minor token parses to, if any: `*` means any (`-1`),
/// anything else must be a decimal `i64`.
pub open spec fn spec_parse_device_number(s: Seq<char>) -> Option<int> {
    if s == seq!['*'] {
        Some(-1)
    } else {
        spec_parse_i64(s)
    }
}

/// Parses a major/minor token: `*` yields the "any" sentinel `-1`, anything
/// else must be a decimal integer.
pub fn parse_device_number(s: &str) -> (r: Result<i64, CgroupError>)
    ensures
        match r {
            Ok(x) => spec_parse_device_number(s@) == Some(x as int),
            Err(e) => spec_parse_device_number(s@) is None && e == CgroupError::ParseError,
        },
{
    let chars = str_to_chars(s);
    parse_device_number_chars(&chars)
}

/// Parses a major/minor token given as characters; the character-level core
/// of `parse_device_number`.
fn parse_device_number_chars(v: &Vec<char>) -> (r: Result<i64, CgroupError>)
    ensures
        match r {
            Ok(x) => spec_parse_device_number(v@) == Some(x as int),
            Err(e) => spec_parse_device_number(v@) is None && e == CgroupError::ParseError,
        },
{
    if v.len() == 1 && v[0] == '*' {
        assert(v@ =~= seq!['*']);
        Ok(-1)
    } else {
        proof {
            if v@.len() == 1 {
                assert(v@[0] != '*');
            }
            assert(v@ != seq!['*']);
        }
        match parse_i64_chars(v) {
            Some(x) => Ok(x),
            None => Err(CgroupError::ParseError),
        }
    }
}

/// Parses one `devices.list` line; fails on any framing or token error.
pub fn parse_device_line(line: &str, allow: bool) -> (r: Result<DeviceResource, CgroupError>)
    ensures
        match r {
            Ok(d) => spec_parse_device_line(line@, allow) == Some(d@),
            Err(e) => spec_parse_device_line(line@, allow) is None && e
                == CgroupError::ParseError,
        },
{
    let chars = str_to_chars(line);
    parse_device_line_chars(&chars, allow)
}

/// Parses one `devices.list` line given as characters; the character-level
/// core of `parse_device_line`.
fn parse_device_line_chars(line: &Vec<char>, allow: bool) -> (r: Result<
    DeviceResource,
    CgroupError,
>)
    ensures
        match r {
            Ok(d) => spec_parse_device_line(line@, allow) == Some(d@),
            Err(e) => spec_parse_device_line(line@, allow) is None && e
                == CgroupError::ParseError,
        },
{
    let parts = split2_chars(line, ' ', ':');
    let ghost partsv = parts.deep_view();
    if parts.len() != 4 {
        return Err(CgroupError::ParseError);
    }
    proof {
        assert(parts@[0].deep_view() == partsv[0]);
        assert(parts@[0].deep_view() =~= parts@[0]@);
        assert(parts@[1].deep_view() == partsv[1]);
        assert(parts@[1].deep_view() =~= parts@[1]@);
        assert(parts@[2].deep_view() == partsv[2]);
        assert(parts@[2].deep_view() =~= parts@[2]@);
        assert(parts@[3].deep_view() == partsv[3]);
        assert(parts@[3].deep_view() =~= parts@[3]@);
    }
    let first = &parts[0];
    let tc: Option<char> = if first.len() == 1 {
        Some(first[0])
    } else {
        None
    };
    let devtype = match DeviceType::from_char(tc) {
        Some(dt) => dt,
        None => {
            return Err(CgroupError::ParseError);
        },
    };
    let major = match parse_device_number_chars(&parts[1]) {
        Ok(x) => x,
        Err(e) => {
            return Err(e);
        },
    };
    let minor = match parse_device_number_chars(&parts[2]) {
        Ok(x) => x,
        Err(e) => {
            return Err(e);
        },
    };
    let access = match perms_from_char_vec(&parts[3]) {
        Ok(ps) => ps,
        Err(e) => {
            return Err(e);
        },
    };
    Ok(DeviceResource { allow, devtype, major, minor, access })
}

/// The rules a sequence of report lines parses to: every line must parse, in
/// order, or the whole report is rejected.
pub open spec fn spec_parse_device_lines(ls: Seq<Seq<char>>) -> Option<Seq<DeviceRule>>
    decreases ls.len(),
{
    if ls.len() == 0 {
        Some(Seq::<DeviceRule>::empty())
    } else {
        match spec_parse_device_lines(ls.drop_last()) {
            Some(r) => match spec_parse_device_line(ls[ls.len() - 1], true) {
                Some(d) => Some(r.push(d)),
                None => None,
            },
            None => None,
        }
    }
}

/// The rules the full text of a `devices.list` file parses to, if every line
/// parses.
pub open spec fn spec_parse_device_list(s: Seq<char>) -> Option<Seq<DeviceRule>> {
    spec_parse_device_lines(spec_lines(s))
}

proof fn lemma_device_lines_prefix_none(ls: Seq<Seq<char>>, k: int)
    requires
        0 <= k <= ls.len(),
        spec_parse_device_lines(ls.take(k)) is None,
    ensures
        spec_parse_device_lines(ls) is None,
    decreases ls.len() - k,
{
    if k < ls.len() {
        let t = ls.take(k + 1);
        assert(t.drop_last() =~= ls.take(k));
        lemma_device_lines_prefix_none(ls, k + 1);
    } else {
        assert(ls.take(k) =~= ls);
    }
}

/// Parses the full text of a `devices.list` report: one rule per line, every
/// line required to parse, order kept.
pub fn parse_device_list(list: &str) -> (r: Result<Vec<DeviceResource>, CgroupError>)
    ensures
        match r {
            Ok(v) => spec_parse_device_list(list@) == Some(v.deep_view()),
            Err(e) => spec_parse_device_list(list@) is None && e == CgroupError::ParseError,
        },
{
    let chars = str_to_chars(list);
    let ls = lines_of(&chars);
    let ghost lsv = ls.deep_view();
    let n = ls.len();
    assert(n == lsv.len()) by {
        assert(ls.deep_view().len() == ls@.len());
    }
    let mut out: Vec<DeviceResource> = Vec::new();
    let mut i: usize = 0;
    proof {
        assert(lsv.take(0) =~= Seq::<Seq<char>>::empty());
        assert(out.deep_view() =~= Seq::<DeviceRule>::empty());
    }
    while i < n
        invariant
            0 <= i <= n == ls@.len(),
            ls.deep_view() == lsv,
            lsv == spec_lines(list@),
            spec_parse_device_lines(lsv.take(i as int)) == Some(out.deep_view()),
        decreases n - i,
    {
        proof {
            assert(lsv.take(i + 1).drop_last() =~= lsv.take(i as int));
            assert(lsv.take(i + 1)[i as int] == lsv[i as int]);
            assert(ls@[i as int].deep_view() == lsv[i as int]);
            assert(ls@[i as int].deep_view() =~= ls@[i as int]@);
        }
        match parse_device_line_chars(&ls[i], true) {
            Ok(d) => {
                let ghost prev = out.deep_view();
                let ghost dv = d@;
                out.push(d);
                proof {
                    assert(out.deep_view() =~= prev.push(dv));
                }
            },
            Err(_) => {
                proof {
                    assert(ls@[i as int]@ == lsv[i as int]);
                    assert(spec_parse_device_line(lsv[i as int], true) is None);
                    let t = lsv.take(i + 1);
                    assert(spec_parse_device_lines(t) is None);
                    lemma_device_lines_prefix_none(lsv, i + 1);
                    assert(spec_lines(list@) == lsv);
                }
                return Err(CgroupError::ParseError);
            },
        }
        i += 1;
    }
    proof {
        assert(lsv.take(n as int) =~= lsv);
    }
    Ok(out)
}

} // verus!
