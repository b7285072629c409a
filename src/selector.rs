//! Device selection: an explicit vendor/product pair, a name mask matched
//! against the catalog, or an index picked by the operator.
use vstd::prelude::*;
use crate::catalog::{DescriptorView, DeviceDescriptor, DeviceIdentity, descriptor_views, identity_of};
use crate::error::ScannerError;
use crate::text::{contains_mask, contains_text};

verus! {

/// How a device was resolved.
#[derive(Clone, Copy, Debug, PartialEq, Eq, Structural)]
pub enum Selection {
    /// The device to open.
    Resolved(DeviceIdentity),
    /// Neither a pair nor a mask was given: the operator picks from the catalog.
    Interactive,
}

/// Both identifiers were given.
pub fn is_pid_and_vid_given(pid: Option<u16>, vid: Option<u16>) -> (r: bool)
    ensures
        r == (pid is Some && vid is Some),
{
    if pid.is_none() || vid.is_none() {
        return false;
    }
    true
}

/// A mask was given.
pub fn is_mask_given(mask: &Option<String>) -> (r: bool)
    ensures
        r == mask is Some,
{
    if mask.is_none() {
        return false;
    }
    true
}

/// Entry `k` is the first whose product name contains `mask`.
pub open spec fn first_product_hit(c: Seq<DescriptorView>, mask: Seq<char>, k: int) -> bool {
    &&& 0 <= k < c.len()
    &&& contains_text(c[k].product, mask)
    &&& forall|j: int| 0 <= j < k ==> !contains_text(#[trigger] c[j].product, mask)
}

/// Entry `k` is the first whose manufacturer name contains `mask`.
pub open spec fn first_manufacturer_hit(c: Seq<DescriptorView>, mask: Seq<char>, k: int) -> bool {
    &&& 0 <= k < c.len()
    &&& contains_text(c[k].manufacturer, mask)
    &&& forall|j: int| 0 <= j < k ==> !contains_text(#[trigger] c[j].manufacturer, mask)
}

pub open spec fn no_product_hit(c: Seq<DescriptorView>, mask: Seq<char>) -> bool {
    forall|j: int| 0 <= j < c.len() ==> !contains_text(#[trigger] c[j].product, mask)
}

pub open spec fn no_manufacturer_hit(c: Seq<DescriptorView>, mask: Seq<char>) -> bool {
    forall|j: int| 0 <= j < c.len() ==> !contains_text(#[trigger] c[j].manufacturer, mask)
}

/// Entry `k` is the one a mask selects: the first product-name match, or,
/// when no product name matches, the first manufacturer-name match.
pub open spec fn is_mask_pick(c: Seq<DescriptorView>, mask: Seq<char>, k: int) -> bool {
    first_product_hit(c, mask, k) || (no_product_hit(c, mask) && first_manufacturer_hit(c, mask, k))
}

/// Position of the device that `mask` selects: the first entry whose product
/// name contains it, else the first whose manufacturer name contains it
/// (case-sensitive), else none.
pub fn find_mask_in_available_devices(devices: &Vec<DeviceDescriptor>, mask: &str) -> (r: Option<usize>)
    ensures
        match r {
            Some(k) => is_mask_pick(descriptor_views(devices@), mask@, k as int),
            None => no_product_hit(descriptor_views(devices@), mask@) && no_manufacturer_hit(
                descriptor_views(devices@),
                mask@,
            ),
        },
        r is None <==> no_product_hit(descriptor_views(devices@), mask@) && no_manufacturer_hit(
            descriptor_views(devices@),
            mask@,
        ),
{
    let ghost c = descriptor_views(devices@);
    let mut k: usize = 0;
    while k < devices.len()
        invariant
            c == descriptor_views(devices@),
            k <= devices@.len(),
            forall|j: int| 0 <= j < k ==> !contains_text(#[trigger] c[j].product, mask@),
        decreases devices@.len() - k,
    {
        assert(c[k as int] == devices@[k as int]@);
        if contains_mask(devices[k].product_string.as_str(), mask) {
            return Some(k);
        }
        k = k + 1;
    }
    let mut k: usize = 0;
    while k < devices.len()
        invariant
            c == descriptor_views(devices@),
            k <= devices@.len(),
            no_product_hit(c, mask@),
            forall|j: int| 0 <= j < k ==> !contains_text(#[trigger] c[j].manufacturer, mask@),
        decreases devices@.len() - k,
    {
        assert(c[k as int] == devices@[k as int]@);
        if contains_mask(devices[k].manufacturer_string.as_str(), mask) {
            return Some(k);
        }
        k = k + 1;
    }
    None
}

/// Resolves the device to open. An explicit pair wins over everything, the
/// catalog included; otherwise a mask selects from the catalog, failing when
/// nothing matches; otherwise the operator is to pick.
pub fn resolve_device(
    vid: Option<u16>,
    pid: Option<u16>,
    mask: &Option<String>,
    devices: &Vec<DeviceDescriptor>,
) -> (r: Result<Selection, ScannerError>)
    ensures
        vid is Some && pid is Some ==> r == Ok::<Selection, ScannerError>(
            Selection::Resolved(DeviceIdentity { vendor_id: vid->0, product_id: pid->0 }),
        ),
        !(vid is Some && pid is Some) && mask is Some ==> match r {
            Ok(Selection::Resolved(id)) => exists|k: int|
                is_mask_pick(descriptor_views(devices@), mask->0@, k) && #[trigger] identity_of(
                    descriptor_views(devices@)[k],
                ) == id,
            Ok(Selection::Interactive) => false,
            Err(e) => e == ScannerError::NoDeviceForMask && no_product_hit(
                descriptor_views(devices@),
                mask->0@,
            ) && no_manufacturer_hit(descriptor_views(devices@), mask->0@),
        },
        !(vid is Some && pid is Some) && mask is Some && no_product_hit(
            descriptor_views(devices@),
            mask->0@,
        ) && no_manufacturer_hit(descriptor_views(devices@), mask->0@) ==> r == Err::<
            Selection,
            ScannerError,
        >(ScannerError::NoDeviceForMask),
        !(vid is Some && pid is Some) && mask is None ==> r == Ok::<Selection, ScannerError>(
            Selection::Interactive,
        ),
{
    if is_pid_and_vid_given(pid, vid) {
        let vendor_id = match vid {
            Some(v) => v,
            None => 0,
        };
        let product_id = match pid {
            Some(p) => p,
            None => 0,
        };
        return Ok(Selection::Resolved(DeviceIdentity { vendor_id, product_id }));
    }
    match mask {
        Some(m) => match find_mask_in_available_devices(devices, m.as_str()) {
            Some(k) => {
                let id = devices[k].identity();
                assert(descriptor_views(devices@)[k as int] == devices@[k as int]@);
                assert(identity_of(descriptor_views(devices@)[k as int]) == id);
                Ok(Selection::Resolved(id))
            },
            None => Err(ScannerError::NoDeviceForMask),
        },
        None => Ok(Selection::Interactive),
    }
}

pub open spec fn is_blank(c: char) -> bool {
    c == ' ' || c == '\t' || c == '\n' || c == '\r'
}

pub open spec fn is_digit(c: char) -> bool {
    '0' <= c <= '9'
}

/// The number written by the decimal digits `d`.
pub open spec fn decimal_value(d: Seq<char>) -> nat
    decreases d.len(),
{
    if d.len() == 0 {
        0
    } else {
        decimal_value(d.drop_last()) * 10 + (d.last() as nat - '0' as nat) as nat
    }
}

/// `s` is blanks, then the digits at positions `a..b` (at least one), then blanks.
pub open spec fn index_text(s: Seq<char>, a: int, b: int) -> bool {
    &&& 0 <= a < b <= s.len()
    &&& forall|j: int| 0 <= j < a ==> is_blank(#[trigger] s[j])
    &&& forall|j: int| a <= j < b ==> is_digit(#[trigger] s[j])
    &&& forall|j: int| b <= j < s.len() ==> is_blank(#[trigger] s[j])
}

/// The operator's line names the catalog position `v`.
pub open spec fn names_index(s: Seq<char>, v: nat) -> bool {
    exists|a: int, b: int| #[trigger] index_text(s, a, b) && decimal_value(s.subrange(a, b)) == v
}

/// The blanks-digits-blanks split of a line is unique.
pub proof fn lemma_index_text_unique(s: Seq<char>, a: int, b: int, a2: int, b2: int)
    requires
        index_text(s, a, b),
        index_text(s, a2, b2),
    ensures
        a == a2 && b == b2,
{
    if a < a2 {
        assert(is_blank(s[a]) && is_digit(s[a]));
    } else if a2 < a {
        assert(is_blank(s[a2]) && is_digit(s[a2]));
    }
    if b < b2 {
        assert(is_blank(s[b]) && is_digit(s[b]));
    } else if b2 < b {
        assert(is_blank(s[b2]) && is_digit(s[b2]));
    }
}

proof fn lemma_decimal_value_grows(d: Seq<char>, c: char)
    requires
        is_digit(c),
    ensures
        decimal_value(d.push(c)) >= decimal_value(d),
        decimal_value(d.push(c)) == decimal_value(d) * 10 + (c as nat - '0' as nat),
{
    assert(d.push(c).drop_last() == d);
}

/// Validates the operator's answer to the index prompt: a line holding a
/// decimal number, possibly between blanks (space, tab, carriage return, line
/// feed), that is a position in the catalog. Anything else is `None`, and the
/// operator is asked again.
pub fn select_usb_device(devices: &Vec<DeviceDescriptor>, input: &str) -> (r: Option<usize>)
    ensures
        match r {
            Some(v) => v < devices@.len() && names_index(input@, v as nat),
            None => forall|v: nat| v < devices@.len() ==> !names_index(input@, v),
        },
{
    let s = crate::text::chars_of(input);
    let n = s.len();
    let len = devices.len();
    if len == 0 {
        return None;
    }
    let mut a: usize = 0;
    while a < n && (s[a] == ' ' || s[a] == '\t' || s[a] == '\n' || s[a] == '\r')
        invariant
            s@ == input@,
            n == s@.len(),
            a <= n,
            forall|j: int| 0 <= j < a ==> is_blank(#[trigger] s@[j]),
        decreases n - a,
    {
        a = a + 1;
    }
    let mut b: usize = a;
    let mut value: usize = 0;
    let mut over = false;
    assert(s@.subrange(a as int, a as int) =~= Seq::<char>::empty());
    while b < n && '0' <= s[b] && s[b] <= '9'
        invariant
            s@ == input@,
            n == s@.len(),
            len == devices@.len(),
            len > 0,
            a <= b <= n,
            forall|j: int| 0 <= j < a ==> is_blank(#[trigger] s@[j]),
            a < n ==> !is_blank(s@[a as int]),
            forall|j: int| a <= j < b ==> is_digit(#[trigger] s@[j]),
            over ==> decimal_value(s@.subrange(a as int, b as int)) >= len,
            !over ==> value == decimal_value(s@.subrange(a as int, b as int)) && value < len,
            b == a ==> !over && value == 0,
        decreases n - b,
    {
        proof {
            assert(s@.subrange(a as int, b + 1) == s@.subrange(a as int, b as int).push(s@[b as int]));
            lemma_decimal_value_grows(s@.subrange(a as int, b as int), s@[b as int]);
        }
        if b == a {
            assert(s@.subrange(a as int, a as int) =~= Seq::<char>::empty());
        }
        if !over {
            let digit = (s[b] as u32 - '0' as u32) as u128;
            let next: u128 = value as u128 * 10 + digit;
            if next >= len as u128 {
                over = true;
            } else {
                value = next as usize;
            }
        }
        b = b + 1;
    }
    if b == a || over {
        proof {
            assert forall|v: nat| v < devices@.len() implies !names_index(input@, v) by {
                if names_index(input@, v) {
                    let (a2, b2) = choose|a2: int, b2: int| #[trigger] index_text(s@, a2, b2)
                        && decimal_value(s@.subrange(a2, b2)) == v;
                    if b == a {
                        if a2 < a {
                            assert(is_blank(s@[a2]) && is_digit(s@[a2]));
                        } else if a2 > a {
                            assert(is_blank(s@[a as int]));
                        } else {
                            assert(is_digit(s@[a as int]));
                        }
                    } else {
                        if a2 < a {
                            assert(is_blank(s@[a2]) && is_digit(s@[a2]));
                        } else if a2 > a {
                            assert(is_blank(s@[a as int]) && is_digit(s@[a as int]));
                        }
                        if b2 < b {
                            assert(is_blank(s@[b2]) && is_digit(s@[b2]));
                        } else if b2 > b {
                            assert(is_digit(s@[b as int]));
                        }
                    }
                }
            }
        }
        return None;
    }
    let mut c: usize = b;
    while c < n
        invariant
            s@ == input@,
            n == s@.len(),
            a < b <= c <= n,
            forall|j: int| 0 <= j < a ==> is_blank(#[trigger] s@[j]),
            forall|j: int| a <= j < b ==> is_digit(#[trigger] s@[j]),
            b < n ==> !is_digit(s@[b as int]),
            forall|j: int| b <= j < c ==> is_blank(#[trigger] s@[j]),
        decreases n - c,
    {
        if !(s[c] == ' ' || s[c] == '\t' || s[c] == '\n' || s[c] == '\r') {
            proof {
                assert forall|v: nat| v < devices@.len() implies !names_index(input@, v) by {
                    if names_index(input@, v) {
                        let (a2, b2) = choose|a2: int, b2: int| #[trigger] index_text(s@, a2, b2)
                            && decimal_value(s@.subrange(a2, b2)) == v;
                        if a2 < a {
                            assert(is_blank(s@[a2]) && is_digit(s@[a2]));
                        } else if a2 > a {
                            assert(is_blank(s@[a as int]) && is_digit(s@[a as int]));
                        }
                        if b2 < b {
                            assert(is_blank(s@[b2]) && is_digit(s@[b2]));
                        } else if b2 > b {
                            assert(is_digit(s@[b as int]));
                        }
                        assert(b2 <= c);
                        assert(is_blank(s@[c as int]) || is_digit(s@[c as int]));
                    }
                }
            }
            return None;
        }
        c = c + 1;
    }
    assert(index_text(s@, a as int, b as int));
    Some(value)
}

} // verus!
