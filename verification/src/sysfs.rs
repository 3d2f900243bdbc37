//! Device handles, registry path parsing, and the backlight and block
//! device behaviours.

use vstd::arithmetic::div_mod::lemma_div_basics_4;
use vstd::arithmetic::div_mod::lemma_div_basics_5;
use vstd::arithmetic::div_mod::lemma_div_is_ordered;
use vstd::arithmetic::div_mod::lemma_div_multiples_vanish;
use vstd::arithmetic::div_mod::lemma_fundamental_div_mod;
use vstd::arithmetic::div_mod::lemma_mod_bound;
use vstd::arithmetic::mul::lemma_mul_inequality;
use vstd::math::abs;
use vstd::prelude::*;
use vstd::string::StrSliceExecFns;
use vstd::string::StringExecFns;

use crate::text::str_starts_with;

verus! {

/// The error kinds an attribute access can surface: the registry reports
/// plain OS failures and this layer passes them on unchanged.
#[derive(Clone, Copy, Debug, PartialEq, Eq, Structural)]
pub enum SysfsError {
    NotFound,
    PermissionDenied,
    Other,
}

/// Division truncating toward zero, the semantics of `/` on the machine's
/// signed integers.
pub open spec fn tdiv(a: int, b: int) -> int {
    if (a >= 0) == (b >= 0) {
        abs(a) as int / abs(b) as int
    } else {
        -(abs(a) as int / abs(b) as int)
    }
}

/// Linear interpolation from one closed range onto another, in integer
/// arithmetic with truncating division.  Round trips need not be exact;
/// the truncation is part of the contract.
pub open spec fn map_spec(x: int, in_min: int, in_max: int, out_min: int, out_max: int) -> int {
    tdiv((x - in_min) * (out_max - out_min), in_max - in_min) + out_min
}

/// Converts `x` from the range `in_min..=in_max` to `out_min..=out_max`.
/// The input range must not be empty, and every intermediate value must
/// fit the machine's 32-bit arithmetic.
pub fn map(x: i32, in_min: i32, in_max: i32, out_min: i32, out_max: i32) -> (r: i32)
    requires
        in_min != in_max,
        i32::MIN <= x - in_min <= i32::MAX,
        i32::MIN <= out_max - out_min <= i32::MAX,
        i32::MIN <= in_max - in_min <= i32::MAX,
        i32::MIN <= (x - in_min) * (out_max - out_min) <= i32::MAX,
        i32::MIN <= tdiv((x - in_min) * (out_max - out_min), in_max - in_min) <= i32::MAX,
        i32::MIN <= map_spec(x as int, in_min as int, in_max as int, out_min as int, out_max as int)
            <= i32::MAX,
    ensures
        r as int == map_spec(x as int, in_min as int, in_max as int, out_min as int, out_max as int),
{
    let num = (x - in_min) * (out_max - out_min);
    let den = in_max - in_min;
    proof {
        assert(num.checked_div(den) == Some((tdiv(num as int, den as int)) as i32));
    }
    let q = num.checked_div(den).unwrap();
    q + out_min
}

/// Forward mapping is monotonic over the input range: a larger in-range
/// input never maps below a smaller one, for any non-empty increasing
/// ranges.  The truncation loses granularity but never order.
pub proof fn lemma_map_monotonic(
    x1: int,
    x2: int,
    in_min: int,
    in_max: int,
    out_min: int,
    out_max: int,
)
    requires
        in_min < in_max,
        out_min < out_max,
        in_min <= x1 <= x2 <= in_max,
    ensures
        map_spec(x1, in_min, in_max, out_min, out_max) <= map_spec(
            x2,
            in_min,
            in_max,
            out_min,
            out_max,
        ),
{
    let d = out_max - out_min;
    let den = in_max - in_min;
    lemma_mul_inequality(x1 - in_min, x2 - in_min, d);
    lemma_div_is_ordered((x1 - in_min) * d, (x2 - in_min) * d, den);
    assert(tdiv((x1 - in_min) * d, den) == (x1 - in_min) * d / den);
    assert(tdiv((x2 - in_min) * d, den) == (x2 - in_min) * d / den);
}

/// A round trip through the mapper and back never overshoots and falls
/// short by at most one granule of the input range: the truncation is
/// lossy, but the loss is bounded by the width ratio of the two ranges.
pub proof fn lemma_map_round_trip(x: int, in_min: int, in_max: int, out_min: int, out_max: int)
    requires
        in_min < in_max,
        out_min < out_max,
        in_min <= x <= in_max,
    ensures
        ({
            let y = map_spec(x, in_min, in_max, out_min, out_max);
            let z = map_spec(y, out_min, out_max, in_min, in_max);
            &&& z <= x
            &&& x - z <= (in_max - in_min) / (out_max - out_min) + 1
        }),
{
    let bb = in_max - in_min;
    let dd = out_max - out_min;
    let nn = (x - in_min) * dd;
    assert(nn >= 0) by (nonlinear_arith)
        requires
            x - in_min >= 0,
            dd > 0,
            nn == (x - in_min) * dd,
    ;
    let y = map_spec(x, in_min, in_max, out_min, out_max);
    let q = nn / bb;
    lemma_div_basics_4(nn, bb);
    assert(tdiv(nn, bb) == q);
    assert(y == q + out_min);

    let mm = (y - out_min) * bb;
    assert(mm >= 0) by (nonlinear_arith)
        requires
            q >= 0,
            bb > 0,
            mm == q * bb,
    ;
    let z = map_spec(y, out_min, out_max, in_min, in_max);
    assert(tdiv(mm, dd) == mm / dd);
    assert(z == mm / dd + in_min);

    lemma_fundamental_div_mod(nn, bb);
    lemma_mod_bound(nn, bb);
    let r = nn % bb;
    assert(mm == nn - r) by (nonlinear_arith)
        requires
            nn == bb * q + r,
            mm == q * bb,
    ;

    // the return never overshoots the original input
    lemma_div_is_ordered(mm, nn, dd);
    lemma_div_multiples_vanish(x - in_min, dd);
    assert(nn == dd * (x - in_min)) by (nonlinear_arith)
        requires
            nn == (x - in_min) * dd,
    ;
    assert(z <= x);

    // and falls short by at most one input granule
    let k = (x - in_min) - bb / dd - 1;
    lemma_fundamental_div_mod(bb, dd);
    lemma_mod_bound(bb, dd);
    assert(dd * k <= mm) by (nonlinear_arith)
        requires
            mm == nn - r,
            nn == dd * (x - in_min),
            k == (x - in_min) - bb / dd - 1,
            bb == dd * (bb / dd) + bb % dd,
            bb % dd < dd,
            r < bb,
            dd > 0,
    ;
    lemma_div_is_ordered(dd * k, mm, dd);
    lemma_div_multiples_vanish(k, dd);
    assert(x - z <= bb / dd + 1);
}

/// No path separator occurs in `s`: what holds of any single path
/// segment, such as a class or device directory name.
pub open spec fn no_slash(s: Seq<char>) -> bool {
    forall|i: int| 0 <= i < s.len() ==> s[i] != '/'
}

/// A class-only registry path: the fixed root, then one segment.
pub open spec fn is_class_path(p: Seq<char>) -> bool {
    &&& p.len() >= 11
    &&& p.subrange(0, 11) == "/sys/class/"@
    &&& no_slash(p.subrange(11, p.len() as int))
}

/// The class segment of a class-only registry path.
pub open spec fn class_of_path(p: Seq<char>) -> Seq<char> {
    p.subrange(11, p.len() as int)
}

/// `k` is the index of the separator between the class and device
/// segments of `p`.
pub open spec fn is_split_at(p: Seq<char>, k: int) -> bool {
    &&& 11 <= k < p.len()
    &&& p[k] == '/'
    &&& no_slash(p.subrange(11, k))
    &&& no_slash(p.subrange(k + 1, p.len() as int))
}

/// A device registry path: the fixed root, a class segment, and a device
/// segment.
pub open spec fn is_device_path(p: Seq<char>) -> bool {
    &&& p.len() >= 12
    &&& p.subrange(0, 11) == "/sys/class/"@
    &&& exists|k: int| is_split_at(p, k)
}

pub open spec fn device_split(p: Seq<char>) -> int {
    choose|k: int| is_split_at(p, k)
}

pub open spec fn device_class_of(p: Seq<char>) -> Seq<char> {
    p.subrange(11, device_split(p))
}

pub open spec fn device_name_of(p: Seq<char>) -> Seq<char> {
    p.subrange(device_split(p) + 1, p.len() as int)
}

/// The canonical registry path of a device handle.
pub open spec fn device_path_of(class: Seq<char>, device: Seq<char>) -> Seq<char> {
    "/sys/class/"@ + class + seq!['/'] + device
}

/// Only one index can separate the class and device segments.
pub proof fn lemma_split_unique(p: Seq<char>, k1: int, k2: int)
    requires
        is_split_at(p, k1),
        is_split_at(p, k2),
    ensures
        k1 == k2,
{
    if k1 < k2 {
        assert(p.subrange(11, k2)[k1 - 11] == p[k1]);
    } else if k2 < k1 {
        assert(p.subrange(11, k1)[k2 - 11] == p[k2]);
    }
}

/// The directory entries that parse as class directories, in listing
/// order.
pub open spec fn class_entries(entries: Seq<String>) -> Seq<String> {
    entries.filter(|e: String| is_class_path(e@))
}

/// The directory entries that parse as device entries, in listing order.
pub open spec fn device_entries(entries: Seq<String>) -> Seq<String> {
    entries.filter(|e: String| is_device_path(e@))
}

/// The class handles `r` are exactly the parses of the class-shaped
/// entries, in listing order.
pub open spec fn classes_match(r: Seq<SysfsClass>, entries: Seq<String>) -> bool {
    &&& r.len() == class_entries(entries).len()
    &&& forall|i: int|
        0 <= i < r.len() ==> {
            &&& (#[trigger] r[i]).path@ == class_entries(entries)[i]@
            &&& r[i].class@ == class_of_path(class_entries(entries)[i]@)
        }
}

/// The device handles `r` are exactly the parses of the device-shaped
/// entries, in listing order.
pub open spec fn devices_match(r: Seq<SysfsDevice>, entries: Seq<String>) -> bool {
    &&& r.len() == device_entries(entries).len()
    &&& forall|i: int|
        0 <= i < r.len() ==> {
            &&& (#[trigger] r[i]).path@ == device_entries(entries)[i]@
            &&& r[i].class@ == device_class_of(device_entries(entries)[i]@)
            &&& r[i].device@ == device_name_of(device_entries(entries)[i]@)
        }
}

/// The registry as a whole: its class directories.
pub struct Sysfs();

impl Sysfs {
    /// Turns the listed entry paths of the registry root into class
    /// handles; entries of any other shape are skipped, not errors.
    /// Listing the root directory itself is the caller's step.
    pub fn enum_classes(entries: &Vec<String>) -> (r: Vec<SysfsClass>)
        ensures
            classes_match(r@, entries@),
    {
        let mut ret: Vec<SysfsClass> = Vec::new();
        let n = entries.len();
        let mut idx: usize = 0;
        proof {
            assert(entries@.subrange(0, 0) =~= Seq::<String>::empty());
        }
        while idx < n
            invariant
                n == entries@.len(),
                0 <= idx <= n,
                classes_match(ret@, entries@.subrange(0, idx as int)),
            decreases n - idx,
        {
            proof {
                let e = entries@[idx as int];
                let pre = entries@.subrange(0, idx as int);
                let nxt = entries@.subrange(0, idx as int + 1);
                assert(nxt =~= pre.push(e));
                pre.lemma_filter_push(e, |x: String| is_class_path(x@));
                assert(class_entries(nxt) == (if is_class_path(e@) {
                    class_entries(pre).push(e)
                } else {
                    class_entries(pre)
                }));
            }
            if let Some(class) = SysfsClass::from_path(entries[idx].as_str()) {
                ret.push(class);
            }
            idx = idx + 1;
        }
        proof {
            assert(entries@.subrange(0, n as int) =~= entries@);
        }
        ret
    }
}

/// A handle on one class directory of the registry.
#[derive(Clone, Debug)]
pub struct SysfsClass {
    pub class: String,
    pub path: String,
}

impl SysfsClass {
    /// Parses an absolute path as a class directory of the registry.
    /// Paths of any other shape yield no handle; absence is the caller's
    /// to judge.
    pub fn from_path(path: &str) -> (r: Option<SysfsClass>)
        ensures
            r is Some <==> is_class_path(path@),
            r matches Some(c) ==> c.class@ == class_of_path(path@) && c.path@ == path@,
    {
        proof {
            reveal_strlit("/sys/class/");
        }
        if !str_starts_with(path, "/sys/class/") {
            return None;
        }
        let n = path.unicode_len();
        let mut i: usize = 11;
        while i < n
            invariant
                n == path@.len(),
                n >= 11,
                11 <= i <= n,
                forall|j: int| 11 <= j < i ==> path@[j] != '/',
            decreases n - i,
        {
            if path.get_char(i) == '/' {
                proof {
                    assert(path@.subrange(11, n as int)[i - 11] == path@[i as int]);
                }
                return None;
            }
            i = i + 1;
        }
        let cls = path.substring_char(11, n);
        proof {
            assert(path@.subrange(0, 11) =~= "/sys/class/"@);
        }
        Some(
            SysfsClass {
                class: String::from_str(cls),
                path: String::from_str(path),
            },
        )
    }

    /// The registry directory a class of this name would live in, with
    /// the trailing separator the listing step expects.
    pub fn dir_path(name: &str) -> (r: String)
        ensures
            r@ == class_dir_of(name@),
    {
        let mut s = String::from_str("/sys/class/");
        s.append(name);
        s.append("/");
        proof {
            reveal_strlit("/");
            assert("/"@ =~= seq!['/']);
        }
        s
    }

    /// A handle for the named class.  Whether its directory is present on
    /// this system is the caller's observation; an absent class is the
    /// not-found error, as the registry reports it.
    pub fn new(name: &str, present: bool) -> (r: Result<SysfsClass, SysfsError>)
        ensures
            present ==> (r matches Ok(c) && c.class@ == name@ && c.path@ == class_dir_of(name@)),
            !present ==> r == Err::<SysfsClass, SysfsError>(SysfsError::NotFound),
    {
        let path = Self::dir_path(name);
        if present {
            Ok(SysfsClass { class: String::from_str(name), path })
        } else {
            Err(SysfsError::NotFound)
        }
    }

    /// Turns the listed entry paths of this class directory into device
    /// handles; entries of any other shape are skipped, not errors.
    pub fn enum_devices(&self, entries: &Vec<String>) -> (r: Vec<SysfsDevice>)
        ensures
            devices_match(r@, entries@),
    {
        let mut ret: Vec<SysfsDevice> = Vec::new();
        let n = entries.len();
        let mut idx: usize = 0;
        proof {
            assert(entries@.subrange(0, 0) =~= Seq::<String>::empty());
        }
        while idx < n
            invariant
                n == entries@.len(),
                0 <= idx <= n,
                devices_match(ret@, entries@.subrange(0, idx as int)),
            decreases n - idx,
        {
            proof {
                let e = entries@[idx as int];
                let pre = entries@.subrange(0, idx as int);
                let nxt = entries@.subrange(0, idx as int + 1);
                assert(nxt =~= pre.push(e));
                pre.lemma_filter_push(e, |x: String| is_device_path(x@));
                assert(device_entries(nxt) == (if is_device_path(e@) {
                    device_entries(pre).push(e)
                } else {
                    device_entries(pre)
                }));
            }
            if let Some(device) = SysfsDevice::from_path(entries[idx].as_str()) {
                ret.push(device);
            }
            idx = idx + 1;
        }
        proof {
            assert(entries@.subrange(0, n as int) =~= entries@);
        }
        ret
    }
}

/// The registry directory of a named class, trailing separator included.
pub open spec fn class_dir_of(name: Seq<char>) -> Seq<char> {
    "/sys/class/"@ + name + seq!['/']
}

/// A handle on one device entry of the registry.  The path always equals
/// the canonical join of root, class and identifier.
#[derive(Debug, Clone)]
pub struct SysfsDevice {
    pub class: String,
    pub device: String,
    pub path: String,
}

impl SysfsDevice {
    /// The handle's invariant: the path is the canonical join of root,
    /// class and identifier, and the segments hold no separator.  It is
    /// never set independently.
    pub open spec fn wf(&self) -> bool {
        &&& self.path@ == device_path_of(self.class@, self.device@)
        &&& no_slash(self.class@)
        &&& no_slash(self.device@)
    }

    /// Parses an absolute path as a device entry of the registry: the
    /// fixed root followed by exactly a class and a device segment.
    pub fn from_path(path: &str) -> (r: Option<SysfsDevice>)
        ensures
            r is Some <==> is_device_path(path@),
            r matches Some(d) ==> {
                &&& d.wf()
                &&& d.class@ == device_class_of(path@)
                &&& d.device@ == device_name_of(path@)
                &&& d.path@ == path@
            },
    {
        proof {
            reveal_strlit("/sys/class/");
        }
        if !str_starts_with(path, "/sys/class/") {
            return None;
        }
        let n = path.unicode_len();
        let mut i: usize = 11;
        while i < n && path.get_char(i) != '/'
            invariant
                n == path@.len(),
                n >= 11,
                11 <= i <= n,
                forall|j: int| 11 <= j < i ==> path@[j] != '/',
            decreases n - i,
        {
            i = i + 1;
        }
        if i == n {
            // no separator after the root: a class path at most
            proof {
                assert forall|k: int| is_split_at(path@, k) implies false by {
                    assert(path@[k] == '/');
                }
            }
            return None;
        }
        let k = i;
        let mut j: usize = k + 1;
        while j < n && path.get_char(j) != '/'
            invariant
                n == path@.len(),
                k < j <= n,
                11 <= k < n,
                path@[k as int] == '/',
                forall|m: int| 11 <= m < k ==> path@[m] != '/',
                forall|m: int| k < m < j ==> path@[m] != '/',
            decreases n - j,
        {
            j = j + 1;
        }
        if j < n {
            // a second separator: more than two segments
            proof {
                let p = path@;
                assert forall|kk: int| is_split_at(p, kk) implies false by {
                    if kk < k {
                        assert(p[kk] == '/');
                    } else if kk == k {
                        assert(p.subrange(k as int + 1, n as int)[j - (k + 1)] == p[j as int]);
                    } else {
                        assert(p.subrange(11, kk)[k - 11] == p[k as int]);
                    }
                }
            }
            return None;
        }
        proof {
            let p = path@;
            assert(p.subrange(0, 11) =~= "/sys/class/"@);
            assert(is_split_at(p, k as int));
            let kk = device_split(p);
            assert(is_split_at(p, kk));
            lemma_split_unique(p, kk, k as int);
        }
        let cls = path.substring_char(11, k);
        let dev = path.substring_char(k + 1, n);
        let d = SysfsDevice {
            class: String::from_str(cls),
            device: String::from_str(dev),
            path: String::from_str(path),
        };
        proof {
            assert(path@ =~= device_path_of(d.class@, d.device@));
        }
        Some(d)
    }

    /// The file holding the named attribute of this device.
    pub fn attr_path(&self, val: &str) -> (r: String)
        ensures
            r@ == attr_path_of(self.class@, self.device@, val@),
    {
        let mut s = String::from_str("/sys/class/");
        s.append(self.class.as_str());
        s.append("/");
        s.append(self.device.as_str());
        s.append("/");
        s.append(val);
        proof {
            reveal_strlit("/");
            assert("/"@ =~= seq!['/']);
        }
        s
    }

    /// The file holding the named hardware-identifying attribute, one
    /// level deeper under the device's `device` directory.
    pub fn device_attr_path(&self, val: &str) -> (r: String)
        ensures
            r@ == device_attr_path_of(self.class@, self.device@, val@),
    {
        let mut s = String::from_str("/sys/class/");
        s.append(self.class.as_str());
        s.append("/");
        s.append(self.device.as_str());
        s.append("/device/");
        s.append(val);
        proof {
            reveal_strlit("/");
            assert("/"@ =~= seq!['/']);
        }
        s
    }

    /// What an attribute read yields once the file's content is in hand:
    /// the content trimmed of surrounding whitespace, or the read's own
    /// error, passed on unchanged.
    pub fn get_value(&self, raw: &Result<String, SysfsError>) -> (r: Result<String, SysfsError>)
        ensures
            raw matches Ok(s) ==> (r matches Ok(t) && t@ == crate::text::trim_spec(s@)),
            raw matches Err(e) ==> r == Err::<String, SysfsError>(*e),
    {
        match raw {
            Ok(s) => Ok(crate::text::trim(s.as_str())),
            Err(e) => Err(*e),
        }
    }

    /// Tags the handle with the behaviour its class carries.
    pub fn into_inner(self) -> (r: SysfsInnerDevice)
        ensures
            self.class@ == "backlight"@ ==> (r matches SysfsInnerDevice::Backlight(b) && b.inner
                == self),
            self.class@ == "block"@ ==> (r matches SysfsInnerDevice::Block(b) && b.inner == self),
            self.class@ != "backlight"@ && self.class@ != "block"@ ==> (r
                matches SysfsInnerDevice::Other(c, d) && c@ == self.class@ && d == self),
    {
        proof {
            reveal_strlit("backlight");
            reveal_strlit("block");
            assert("backlight"@.len() == 9);
            assert("block"@.len() == 5);
            assert("backlight"@ != "block"@);
        }
        if crate::text::str_eq(self.class.as_str(), "backlight") {
            SysfsInnerDevice::Backlight(Backlight { inner: self })
        } else if crate::text::str_eq(self.class.as_str(), "block") {
            SysfsInnerDevice::Block(Block { inner: self })
        } else {
            let class = self.class.clone();
            SysfsInnerDevice::Other(class, self)
        }
    }
}

/// The attribute file of a device handle.
pub open spec fn attr_path_of(class: Seq<char>, device: Seq<char>, attr: Seq<char>) -> Seq<char> {
    "/sys/class/"@ + class + seq!['/'] + device + seq!['/'] + attr
}

/// The nested attribute file under a device handle's `device` directory.
pub open spec fn device_attr_path_of(
    class: Seq<char>,
    device: Seq<char>,
    attr: Seq<char>,
) -> Seq<char> {
    "/sys/class/"@ + class + seq!['/'] + device + "/device/"@ + attr
}

/// A device handle tagged with the behaviour its class carries.
#[derive(Debug)]
pub enum SysfsInnerDevice {
    Backlight(Backlight),
    Block(Block),
    Bluetooth,
    Firmware,
    Hwmon,
    I2cDev,
    Input,
    Leds,
    Net,
    PowerSupply,
    Thermal,
    Other(String, SysfsDevice),
}

/// A display backlight controller: brightness is read and written through
/// attribute files, never cached, and exposed on a fixed 0..=255 scale.
#[derive(Debug)]
pub struct Backlight {
    pub inner: SysfsDevice,
}

/// A block storage device or one of its partitions.
#[derive(Debug)]
pub struct Block {
    pub inner: SysfsDevice,
}

/// The native value an attribute holds, with unparsable content degrading
/// to zero, as the brightness files are read.
pub open spec fn parse_i32_or_zero(s: Seq<char>) -> i32 {
    match crate::text::parse_i32_spec(s) {
        Some(n) => n,
        None => 0,
    }
}

/// The native maximum a reading of the `max_brightness` attribute
/// yields: unreadable or unparsable content both degrade to zero.
pub open spec fn max_native_of(raw: Result<String, SysfsError>) -> i32 {
    match raw {
        Ok(s) => parse_i32_or_zero(s@),
        Err(_) => 0,
    }
}

/// A brightness step clamped onto the external scale: the sum of the
/// current value and the delta, saturating at 0 and at 255.
pub open spec fn clamp_external(cur: int, delta: int) -> int {
    if cur + delta > 255 {
        255
    } else if cur + delta < 0 {
        0
    } else {
        cur + delta
    }
}

impl Backlight {
    /// Converts a native brightness reading onto the external 0..=255
    /// scale against the given native maximum.  The caller resolves a
    /// degenerate native range before mapping, and the result must land
    /// on the external scale.
    pub fn map_to_u8(&self, max: i32, val: i32) -> (r: u8)
        requires
            max != 0,
            i32::MIN <= (val as int) * 255 <= i32::MAX,
            0 <= map_spec(val as int, 0, max as int, 0, 255) <= 255,
        ensures
            r as int == map_spec(val as int, 0, max as int, 0, 255),
    {
        let m = map(val, 0, max, 0, 255);
        m as u8
    }

    /// Converts an external-scale value into the native range against the
    /// given native maximum.
    pub fn map_from_u8(&self, max: i32, val: u8) -> (r: i32)
        requires
            i32::MIN <= (val as int) * (max as int) <= i32::MAX,
        ensures
            r as int == map_spec(val as int, 0, 255, 0, max as int),
    {
        proof {
            let num = (val as int) * (max as int);
            lemma_div_basics_5(abs(num) as int, 255);
        }
        map(val as i32, 0, 255, 0, max)
    }

    /// The device's native maximum, freshly read.  This never fails:
    /// unreadable and unparsable content both degrade to zero.
    pub fn max_brightness(&self, raw: &Result<String, SysfsError>) -> (r: Result<i32, SysfsError>)
        ensures
            r == Ok::<i32, SysfsError>(max_native_of(*raw)),
    {
        match raw {
            Ok(s) => match crate::text::parse_i32(s.as_str()) {
                Some(v) => Ok(v),
                None => Ok(0),
            },
            Err(_) => Ok(0),
        }
    }

    /// The current brightness on the external scale, computed from a
    /// fresh reading of the `brightness` attribute and the native
    /// maximum.  Any native reading is mapped; only a parse failure
    /// degrades to native zero.  The native range must not be degenerate,
    /// the reading must lie within it, and the mapping must fit the
    /// machine's 32-bit arithmetic.
    pub fn cur_val(&self, max: i32, raw: &Result<String, SysfsError>) -> (r: Result<
        u8,
        SysfsError,
    >)
        requires
            raw matches Ok(s) ==> {
                &&& max >= 1
                &&& 0 <= parse_i32_or_zero(s@) <= max
                &&& (parse_i32_or_zero(s@) as int) * 255 <= i32::MAX
            },
        ensures
            raw matches Ok(s) ==> (r matches Ok(v) && v as int == map_spec(
                parse_i32_or_zero(s@) as int,
                0,
                max as int,
                0,
                255,
            )),
            raw matches Err(e) ==> r == Err::<u8, SysfsError>(*e),
    {
        match raw {
            Ok(s) => {
                let val = match crate::text::parse_i32(s.as_str()) {
                    Some(v) => v,
                    None => 0,
                };
                proof {
                    lemma_mul_inequality(val as int, max as int, 255);
                    lemma_div_is_ordered(
                        (val as int) * 255,
                        (max as int) * 255,
                        max as int,
                    );
                    lemma_div_multiples_vanish(255, max as int);
                }
                let m = map(val, 0, max, 0, 255);
                Ok(m as u8)
            },
            Err(e) => Err(*e),
        }
    }

    /// The external brightness after applying a signed step: the sum
    /// saturates at the scale's ends, for any signed 16-bit delta, and
    /// never wraps or overflows.
    pub fn inc(&self, cur: u8, val: i16) -> (r: u8)
        ensures
            r as int == clamp_external(cur as int, val as int),
    {
        let sum: i32 = cur as i32 + val as i32;
        if sum > 255 {
            255
        } else if sum < 0 {
            0
        } else {
            sum as u8
        }
    }

    /// The text to write to the `brightness` attribute to select an
    /// external-scale value: the value mapped into the native range,
    /// rendered in decimal.
    pub fn set(&self, max: i32, val: u8) -> (r: String)
        requires
            i32::MIN <= (val as int) * (max as int) <= i32::MAX,
        ensures
            r@ == crate::text::dec_str_i32(map_spec(val as int, 0, 255, 0, max as int)),
    {
        let native = self.map_from_u8(max, val);
        crate::text::i32_to_decimal(native)
    }
}

/// The device node a block device of this identifier would expose.
pub open spec fn dev_path_of(device: Seq<char>) -> Seq<char> {
    "/dev/"@ + device
}

/// The value of an attribute read, with a failed read standing for an
/// empty value.
pub open spec fn value_or_empty(r: Result<String, SysfsError>) -> Seq<char> {
    match r {
        Ok(s) => s@,
        Err(_) => Seq::empty(),
    }
}

/// The sector count the `size` attribute reports, if it was readable and
/// parsable.
pub open spec fn sectors_of(raw: Result<String, SysfsError>) -> Option<u64> {
    match raw {
        Ok(s) => crate::text::parse_u64_spec(s@),
        Err(_) => None,
    }
}

/// The size in bytes: the reported 512-byte sector count times 512.
pub open spec fn size_bytes_spec(raw: Result<String, SysfsError>) -> Option<u64> {
    match sectors_of(raw) {
        Some(n) => Some((n * 512) as u64),
        None => None,
    }
}

/// The size in decimal kilobytes.
pub open spec fn size_kilobytes_spec(raw: Result<String, SysfsError>) -> Option<u64> {
    match size_bytes_spec(raw) {
        Some(b) => Some((b / 1000) as u64),
        None => None,
    }
}

/// The size in decimal megabytes.
pub open spec fn size_megabytes_spec(raw: Result<String, SysfsError>) -> Option<u64> {
    match size_kilobytes_spec(raw) {
        Some(k) => Some((k / 1000) as u64),
        None => None,
    }
}

/// The size in decimal gigabytes.
pub open spec fn size_gigabytes_spec(raw: Result<String, SysfsError>) -> Option<u64> {
    match size_megabytes_spec(raw) {
        Some(m) => Some((m / 1000) as u64),
        None => None,
    }
}

/// The directory entries whose name starts with the identifier: the
/// registry's naming convention for a device's partitions.
pub open spec fn partition_entries(entries: Seq<String>, ident: Seq<char>) -> Seq<String> {
    entries.filter(|e: String| ident.is_prefix_of(e@))
}

/// The block handles `r` are exactly the named sibling entries, read as
/// devices of the block class, in listing order.
pub open spec fn blocks_match(r: Seq<Block>, entries: Seq<String>) -> bool {
    &&& r.len() == entries.len()
    &&& forall|i: int|
        0 <= i < r.len() ==> {
            &&& (#[trigger] r[i]).inner.class@ == "block"@
            &&& r[i].inner.device@ == entries[i]@
            &&& r[i].inner.path@ == "/sys/class/block/"@ + entries[i]@
        }
}

impl Block {
    /// The path of this device's node under `/dev`.
    pub fn dev_node_path(&self) -> (r: String)
        ensures
            r@ == dev_path_of(self.inner.device@),
    {
        let mut s = String::from_str("/dev/");
        s.append(self.inner.device.as_str());
        s
    }

    /// The device node, if the caller observed it to be present on the
    /// filesystem.
    pub fn dev_path(&self, present: bool) -> (r: Option<String>)
        ensures
            present ==> (r matches Some(p) && p@ == dev_path_of(self.inner.device@)),
            !present ==> r is None,
    {
        if present {
            Some(self.dev_node_path())
        } else {
            None
        }
    }

    /// A display name from the trimmed `vendor` and `model` attributes:
    /// nothing when both are empty, the non-empty one alone when one is
    /// empty, and both joined by a single space otherwise.  An unreadable
    /// attribute counts as empty.
    pub fn fancy_name(
        &self,
        vendor: &Result<String, SysfsError>,
        model: &Result<String, SysfsError>,
    ) -> (r: Option<String>)
        ensures
            ({
                let v = value_or_empty(*vendor);
                let m = value_or_empty(*model);
                &&& (v.len() == 0 && m.len() == 0) ==> r is None
                &&& (v.len() > 0 && m.len() == 0) ==> (r matches Some(s) && s@ == v)
                &&& (v.len() == 0 && m.len() > 0) ==> (r matches Some(s) && s@ == m)
                &&& (v.len() > 0 && m.len() > 0) ==> (r matches Some(s) && s@ == v + seq![' ']
                    + m)
            }),
    {
        proof {
            reveal_strlit("");
            reveal_strlit(" ");
        }
        let vendor_s: &str = match vendor {
            Ok(s) => s.as_str(),
            Err(_) => "",
        };
        let model_s: &str = match model {
            Ok(s) => s.as_str(),
            Err(_) => "",
        };
        if model_s.is_empty() && vendor_s.is_empty() {
            return None;
        }
        if model_s.is_empty() || vendor_s.is_empty() {
            let mut s = String::from_str(vendor_s);
            s.append(model_s);
            proof {
                assert(value_or_empty(*vendor).len() == 0 ==> s@ =~= value_or_empty(*model));
                assert(value_or_empty(*model).len() == 0 ==> s@ =~= value_or_empty(*vendor));
            }
            return Some(s);
        }
        let mut s = String::from_str(vendor_s);
        s.append(" ");
        s.append(model_s);
        proof {
            assert(" "@ =~= seq![' ']);
        }
        Some(s)
    }

    /// Whether this device is a partition: the registry convention is
    /// that partitions expose a readable `start` or `partition`
    /// attribute, and whole disks neither.  Presence is the caller's
    /// readability probe; any failed read counts as absent.
    pub fn is_partition(&self, has_start: bool, has_partition: bool) -> (r: bool)
        ensures
            r == (has_partition || has_start),
    {
        has_partition || has_start
    }

    /// The sibling entries whose name starts with this device's
    /// identifier, as block handles, in listing order; a leaf device with
    /// no children yields zero results.  Listing the device's own
    /// registry directory is the caller's step, and directory entry names
    /// hold no separator.
    pub fn partitions(&self, entries: &Vec<String>) -> (r: Vec<Block>)
        requires
            forall|i: int| 0 <= i < entries@.len() ==> no_slash((#[trigger] entries@[i])@),
        ensures
            blocks_match(r@, partition_entries(entries@, self.inner.device@)),
    {
        let ghost idv = self.inner.device@;
        let mut ret: Vec<Block> = Vec::new();
        let n = entries.len();
        let mut idx: usize = 0;
        proof {
            assert(entries@.subrange(0, 0) =~= Seq::<String>::empty());
            reveal(Seq::filter);
        }
        while idx < n
            invariant
                n == entries@.len(),
                0 <= idx <= n,
                idv == self.inner.device@,
                forall|i: int| 0 <= i < entries@.len() ==> no_slash((#[trigger] entries@[i])@),
                blocks_match(ret@, partition_entries(entries@.subrange(0, idx as int), idv)),
            decreases n - idx,
        {
            proof {
                reveal(Seq::filter);
                let e = entries@[idx as int];
                let pre = entries@.subrange(0, idx as int);
                let nxt = entries@.subrange(0, idx as int + 1);
                assert(nxt =~= pre.push(e));
                assert(nxt.drop_last() =~= pre);
                assert(partition_entries(nxt, idv) == (if idv.is_prefix_of(e@) {
                    partition_entries(pre, idv).push(e)
                } else {
                    partition_entries(pre, idv)
                }));
            }
            let entryname = &entries[idx];
            if crate::text::str_starts_with(entryname.as_str(), self.inner.device.as_str()) {
                let mut joined = String::from_str("/sys/class/block/");
                joined.append(entryname.as_str());
                proof {
                    reveal_strlit("/sys/class/block/");
                    reveal_strlit("/sys/class/");
                    reveal_strlit("block");
                    let p = joined@;
                    assert(p.subrange(0, 11) =~= "/sys/class/"@);
                    assert(forall|m: int| 11 <= m < 16 ==> p[m] != '/');
                    assert(p.subrange(17, p.len() as int) =~= entries@[idx as int]@);
                    assert(is_split_at(p, 16));
                    let kk = device_split(p);
                    assert(is_split_at(p, kk));
                    lemma_split_unique(p, kk, 16);
                    assert(p.subrange(11, 16) =~= "block"@);
                }
                let dev = SysfsDevice::from_path(joined.as_str());
                let device = dev.unwrap();
                match device.into_inner() {
                    SysfsInnerDevice::Block(out) => {
                        ret.push(out);
                    },
                    _ => {
                        proof {
                            assert(false);
                        }
                    },
                }
            }
            idx = idx + 1;
        }
        proof {
            assert(entries@.subrange(0, n as int) =~= entries@);
        }
        ret
    }

    /// This device's identifier: its directory name in the registry.
    pub fn name(&self) -> (r: &str)
        ensures
            r@ == self.inner.device@,
    {
        self.inner.device.as_str()
    }

    /// The size in bytes from a fresh reading of the `size` attribute:
    /// the reported 512-byte sector count times 512, or nothing when the
    /// attribute is unreadable or unparsable.  The product must fit the
    /// machine word.
    pub fn size_bytes(&self, raw: &Result<String, SysfsError>) -> (r: Option<u64>)
        requires
            sectors_of(*raw) matches Some(n) ==> n * 512 <= u64::MAX,
        ensures
            r == size_bytes_spec(*raw),
    {
        match raw {
            Ok(s) => match crate::text::parse_u64(s.as_str()) {
                Some(size) => Some(size * 512),
                None => None,
            },
            Err(_) => None,
        }
    }

    /// The size in decimal kilobytes, from the same reading.
    pub fn size_kilobytes(&self, raw: &Result<String, SysfsError>) -> (r: Option<u64>)
        requires
            sectors_of(*raw) matches Some(n) ==> n * 512 <= u64::MAX,
        ensures
            r == size_kilobytes_spec(*raw),
    {
        match self.size_bytes(raw) {
            Some(v) => Some(v / 1000),
            None => None,
        }
    }

    /// The size in decimal megabytes, from the same reading.
    pub fn size_megabytes(&self, raw: &Result<String, SysfsError>) -> (r: Option<u64>)
        requires
            sectors_of(*raw) matches Some(n) ==> n * 512 <= u64::MAX,
        ensures
            r == size_megabytes_spec(*raw),
    {
        match self.size_kilobytes(raw) {
            Some(v) => Some(v / 1000),
            None => None,
        }
    }

    /// The size in decimal gigabytes, from the same reading.
    pub fn size_gigabytes(&self, raw: &Result<String, SysfsError>) -> (r: Option<u64>)
        requires
            sectors_of(*raw) matches Some(n) ==> n * 512 <= u64::MAX,
        ensures
            r == size_gigabytes_spec(*raw),
    {
        match self.size_megabytes(raw) {
            Some(v) => Some(v / 1000),
            None => None,
        }
    }
}

} // verus!

