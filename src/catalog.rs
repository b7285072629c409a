//! The device catalog: raw HID device entries filtered down to the usable ones,
//! one per vendor/product pair, in the order the transport listed them.
use vstd::prelude::*;

verus! {

/// One entry of the transport's device list, as it was reported.
pub struct RawDevice {
    pub vendor_id: u16,
    pub product_id: u16,
    pub manufacturer_string: Option<String>,
    pub product_string: Option<String>,
}

/// A usable device: both descriptive strings are present and non-empty.
pub struct DeviceDescriptor {
    pub vendor_id: u16,
    pub product_id: u16,
    pub manufacturer_string: String,
    pub product_string: String,
}

/// The pair of identifiers that a device is opened with.
#[derive(Clone, Copy, Debug, PartialEq, Eq, Structural)]
pub struct DeviceIdentity {
    pub vendor_id: u16,
    pub product_id: u16,
}

pub ghost struct RawDeviceView {
    pub vendor_id: u16,
    pub product_id: u16,
    pub manufacturer: Option<Seq<char>>,
    pub product: Option<Seq<char>>,
}

pub ghost struct DescriptorView {
    pub vendor_id: u16,
    pub product_id: u16,
    pub manufacturer: Seq<char>,
    pub product: Seq<char>,
}

pub open spec fn opt_view(s: Option<String>) -> Option<Seq<char>> {
    match s {
        Some(t) => Some(t@),
        None => None,
    }
}

impl View for RawDevice {
    type V = RawDeviceView;

    open spec fn view(&self) -> RawDeviceView {
        RawDeviceView {
            vendor_id: self.vendor_id,
            product_id: self.product_id,
            manufacturer: opt_view(self.manufacturer_string),
            product: opt_view(self.product_string),
        }
    }
}

impl View for DeviceDescriptor {
    type V = DescriptorView;

    open spec fn view(&self) -> DescriptorView {
        DescriptorView {
            vendor_id: self.vendor_id,
            product_id: self.product_id,
            manufacturer: self.manufacturer_string@,
            product: self.product_string@,
        }
    }
}

impl DeviceDescriptor {
    /// The identifiers this device is opened with.
    pub fn identity(&self) -> (r: DeviceIdentity)
        ensures
            r == identity_of(self@),
    {
        DeviceIdentity { vendor_id: self.vendor_id, product_id: self.product_id }
    }
}

pub open spec fn raw_views(v: Seq<RawDevice>) -> Seq<RawDeviceView> {
    v.map_values(|d: RawDevice| d@)
}

pub open spec fn descriptor_views(v: Seq<DeviceDescriptor>) -> Seq<DescriptorView> {
    v.map_values(|d: DeviceDescriptor| d@)
}

pub open spec fn identity_of(d: DescriptorView) -> DeviceIdentity {
    DeviceIdentity { vendor_id: d.vendor_id, product_id: d.product_id }
}

pub open spec fn raw_identity(d: RawDeviceView) -> DeviceIdentity {
    DeviceIdentity { vendor_id: d.vendor_id, product_id: d.product_id }
}

/// Both descriptive strings are present and non-empty.
pub open spec fn usable(d: RawDeviceView) -> bool {
    &&& d.manufacturer is Some
    &&& d.manufacturer->0.len() > 0
    &&& d.product is Some
    &&& d.product->0.len() > 0
}

pub open spec fn describe(d: RawDeviceView) -> DescriptorView {
    DescriptorView {
        vendor_id: d.vendor_id,
        product_id: d.product_id,
        manufacturer: d.manufacturer->0,
        product: d.product->0,
    }
}

/// Some entry of `c` has identity `id`.
pub open spec fn has_identity(c: Seq<DescriptorView>, id: DeviceIdentity) -> bool {
    exists|k: int| 0 <= k < c.len() && #[trigger] identity_of(c[k]) == id
}

/// The catalog of a raw device list: each usable entry whose identity has
/// not been accepted yet is accepted, in list order.
pub open spec fn catalog(raw: Seq<RawDeviceView>) -> Seq<DescriptorView>
    decreases raw.len(),
{
    if raw.len() == 0 {
        Seq::empty()
    } else {
        let prev = catalog(raw.drop_last());
        let d = raw.last();
        if usable(d) && !has_identity(prev, raw_identity(d)) {
            prev.push(describe(d))
        } else {
            prev
        }
    }
}

/// Entry `i` is usable and no usable entry before it has the same identity.
pub open spec fn first_usable(raw: Seq<RawDeviceView>, i: int) -> bool {
    &&& 0 <= i < raw.len()
    &&& usable(raw[i])
    &&& forall|j: int|
        0 <= j < i && usable(#[trigger] raw[j]) ==> raw_identity(raw[j]) != raw_identity(raw[i])
}

/// An identity is in the catalog exactly when some usable entry of the raw
/// list carries it.
pub proof fn lemma_catalog_identities(raw: Seq<RawDeviceView>, id: DeviceIdentity)
    ensures
        has_identity(catalog(raw), id) <==> exists|i: int|
            0 <= i < raw.len() && usable(raw[i]) && #[trigger] raw_identity(raw[i]) == id,
    decreases raw.len(),
{
    if raw.len() > 0 {
        let r0 = raw.drop_last();
        let c0 = catalog(r0);
        let d = raw.last();
        lemma_catalog_identities(r0, id);
        if has_identity(catalog(raw), id) {
            let k = choose|k: int| 0 <= k < catalog(raw).len() && #[trigger] identity_of(catalog(raw)[k]) == id;
            if k < c0.len() {
                assert(identity_of(c0[k]) == id);
                let j = choose|j: int| 0 <= j < r0.len() && usable(r0[j]) && #[trigger] raw_identity(r0[j]) == id;
                assert(raw[j] == r0[j]);
                assert(raw_identity(raw[j]) == id);
            } else {
                assert(raw_identity(raw[raw.len() - 1]) == id);
            }
        }
        if exists|i: int| 0 <= i < raw.len() && usable(raw[i]) && #[trigger] raw_identity(raw[i]) == id {
            let i = choose|i: int| 0 <= i < raw.len() && usable(raw[i]) && #[trigger] raw_identity(raw[i]) == id;
            if i < raw.len() - 1 {
                assert(r0[i] == raw[i]);
                assert(raw_identity(r0[i]) == id);
                let k = choose|k: int| 0 <= k < c0.len() && #[trigger] identity_of(c0[k]) == id;
                assert(catalog(raw)[k] == c0[k]);
                assert(identity_of(catalog(raw)[k]) == id);
            } else if !has_identity(c0, id) {
                let c = catalog(raw);
                assert(c[c.len() - 1] == describe(d));
                assert(identity_of(c[c.len() - 1]) == id);
            }
        }
    }
}

/// Positions in the raw list of the catalog's entries.
spec fn catalog_origins(raw: Seq<RawDeviceView>) -> Seq<int>
    decreases raw.len(),
{
    if raw.len() == 0 {
        Seq::empty()
    } else {
        let prev = catalog_origins(raw.drop_last());
        let d = raw.last();
        if usable(d) && !has_identity(catalog(raw.drop_last()), raw_identity(d)) {
            prev.push(raw.len() - 1)
        } else {
            prev
        }
    }
}

proof fn lemma_catalog_origins(raw: Seq<RawDeviceView>)
    ensures
        catalog_origins(raw).len() == catalog(raw).len(),
        forall|k: int|
            0 <= k < catalog_origins(raw).len() ==> first_usable(raw, #[trigger] catalog_origins(raw)[k])
                && catalog(raw)[k] == describe(raw[catalog_origins(raw)[k]]),
        forall|k1: int, k2: int|
            0 <= k1 < k2 < catalog_origins(raw).len() ==> #[trigger] catalog_origins(raw)[k1]
                < #[trigger] catalog_origins(raw)[k2],
        forall|i: int|
            #[trigger] first_usable(raw, i) ==> exists|k: int|
                0 <= k < catalog_origins(raw).len() && #[trigger] catalog_origins(raw)[k] == i,
    decreases raw.len(),
{
    if raw.len() > 0 {
        let r0 = raw.drop_last();
        let n = raw.len() - 1;
        let d = raw.last();
        let o0 = catalog_origins(r0);
        let c0 = catalog(r0);
        lemma_catalog_origins(r0);
        lemma_catalog_identities(r0, raw_identity(d));
        assert forall|i: int| 0 <= i < n implies first_usable(raw, i) == first_usable(r0, i) by {
            assert(raw[i] == r0[i]);
            assert forall|j: int| 0 <= j < i implies raw[j] == r0[j] by {}
        }
        if first_usable(raw, n) {
            assert(!has_identity(c0, raw_identity(d))) by {
                if has_identity(c0, raw_identity(d)) {
                    let j = choose|j: int| 0 <= j < r0.len() && usable(r0[j]) && #[trigger] raw_identity(r0[j]) == raw_identity(d);
                    assert(raw[j] == r0[j]);
                }
            }
        } else if usable(d) {
            assert(has_identity(c0, raw_identity(d))) by {
                let j = choose|j: int| 0 <= j < n && usable(#[trigger] raw[j]) && raw_identity(raw[j]) == raw_identity(d);
                assert(raw[j] == r0[j]);
                assert(raw_identity(r0[j]) == raw_identity(d));
            }
        }
        let o = catalog_origins(raw);
        let c = catalog(raw);
        assert forall|k: int| 0 <= k < o.len() implies first_usable(raw, #[trigger] o[k])
            && c[k] == describe(raw[o[k]]) by {
            if k < o0.len() {
                assert(o[k] == o0[k]);
                assert(c[k] == c0[k]);
                assert(first_usable(r0, o0[k]));
                assert(raw[o0[k]] == r0[o0[k]]);
            }
        }
        assert forall|i: int| #[trigger] first_usable(raw, i) implies exists|k: int|
            0 <= k < o.len() && #[trigger] o[k] == i by {
            if i < n {
                assert(first_usable(r0, i));
                let k = choose|k: int| 0 <= k < o0.len() && #[trigger] o0[k] == i;
                assert(o[k] == o0[k]);
            } else {
                assert(o[o.len() - 1] == n);
            }
        }
        assert forall|k1: int, k2: int| 0 <= k1 < k2 < o.len() implies #[trigger] o[k1]
            < #[trigger] o[k2] by {
            if k2 < o0.len() {
                assert(o[k1] == o0[k1]);
                assert(o[k2] == o0[k2]);
            } else {
                assert(o[k1] == o0[k1]);
                assert(first_usable(r0, o0[k1]));
            }
        }
    }
}

/// `origin` gives, for each catalog entry, the position of the raw entry it
/// was taken from: a first usable occurrence of its pair, in increasing order,
/// and every first usable occurrence is taken.
pub open spec fn traces_first_encounters(raw: Seq<RawDeviceView>, origin: Seq<int>) -> bool {
    &&& origin.len() == catalog(raw).len()
    &&& forall|k: int|
        0 <= k < origin.len() ==> first_usable(raw, #[trigger] origin[k]) && catalog(raw)[k]
            == describe(raw[origin[k]])
    &&& forall|k1: int, k2: int|
        0 <= k1 < k2 < origin.len() ==> #[trigger] origin[k1] < #[trigger] origin[k2]
    &&& forall|i: int|
        #[trigger] first_usable(raw, i) ==> exists|k: int|
            0 <= k < origin.len() && #[trigger] origin[k] == i
}

/// The catalog is the subsequence of the raw list's usable entries that are
/// the first of their vendor/product pair: every entry comes from such a raw
/// entry, every such raw entry appears, the order of the raw list is kept, no
/// two entries share a pair, and every entry has non-empty names.
pub proof fn lemma_catalog_first_encounter(raw: Seq<RawDeviceView>)
    ensures
        exists|origin: Seq<int>| #[trigger] traces_first_encounters(raw, origin),
        forall|k1: int, k2: int|
            0 <= k1 < k2 < catalog(raw).len() ==> identity_of(#[trigger] catalog(raw)[k1])
                != identity_of(#[trigger] catalog(raw)[k2]),
        forall|k: int|
            0 <= k < catalog(raw).len() ==> (#[trigger] catalog(raw)[k]).manufacturer.len() > 0
                && catalog(raw)[k].product.len() > 0,
{
    lemma_catalog_origins(raw);
    let o = catalog_origins(raw);
    let c = catalog(raw);
    assert(traces_first_encounters(raw, o));
    assert forall|k1: int, k2: int| 0 <= k1 < k2 < c.len() implies identity_of(#[trigger] c[k1])
        != identity_of(#[trigger] c[k2]) by {
        assert(o[k1] < o[k2]);
        assert(first_usable(raw, o[k1]));
        assert(first_usable(raw, o[k2]));
        assert(usable(raw[o[k1]]));
    }
    assert forall|k: int| 0 <= k < c.len() implies (#[trigger] c[k]).manufacturer.len() > 0
        && c[k].product.len() > 0 by {
        assert(first_usable(raw, o[k]));
    }
}

/// Two listings of the same devices, in any order and with any repetition,
/// give catalogs that hold the same vendor/product pairs.
pub proof fn lemma_catalog_same_devices(raw1: Seq<RawDeviceView>, raw2: Seq<RawDeviceView>)
    requires
        raw1.to_set() == raw2.to_set(),
    ensures
        forall|id: DeviceIdentity|
            #[trigger] has_identity(catalog(raw1), id) == has_identity(catalog(raw2), id),
{
    assert forall|id: DeviceIdentity| #[trigger] has_identity(catalog(raw1), id) == has_identity(
        catalog(raw2),
        id,
    ) by {
        lemma_catalog_identities(raw1, id);
        lemma_catalog_identities(raw2, id);
        if exists|i: int| 0 <= i < raw1.len() && usable(raw1[i]) && #[trigger] raw_identity(raw1[i]) == id {
            let i = choose|i: int| 0 <= i < raw1.len() && usable(raw1[i]) && #[trigger] raw_identity(raw1[i]) == id;
            assert(raw1.to_set().contains(raw1[i]));
            assert(raw2.to_set().contains(raw1[i]));
            let j = choose|j: int| 0 <= j < raw2.len() && raw2[j] == raw1[i];
            assert(raw_identity(raw2[j]) == id);
        }
        if exists|i: int| 0 <= i < raw2.len() && usable(raw2[i]) && #[trigger] raw_identity(raw2[i]) == id {
            let i = choose|i: int| 0 <= i < raw2.len() && usable(raw2[i]) && #[trigger] raw_identity(raw2[i]) == id;
            assert(raw2.to_set().contains(raw2[i]));
            assert(raw1.to_set().contains(raw2[i]));
            let j = choose|j: int| 0 <= j < raw1.len() && raw1[j] == raw2[i];
            assert(raw_identity(raw1[j]) == id);
        }
    }
}

/// Listing the same devices twice in the same order gives the same catalog.
pub proof fn lemma_catalog_repeatable(raw1: Seq<RawDeviceView>, raw2: Seq<RawDeviceView>)
    requires
        raw1 == raw2,
    ensures
        catalog(raw1) == catalog(raw2),
{
}

fn non_empty(s: &Option<String>) -> (r: bool)
    ensures
        r == (opt_view(*s) is Some && opt_view(*s)->0.len() > 0),
{
    match s {
        Some(t) => !t.as_str().is_empty(),
        None => false,
    }
}

fn holds_identity(accepted: &Vec<DeviceDescriptor>, vendor_id: u16, product_id: u16) -> (r: bool)
    ensures
        r == has_identity(
            descriptor_views(accepted@),
            DeviceIdentity { vendor_id, product_id },
        ),
{
    let ghost id = DeviceIdentity { vendor_id, product_id };
    let ghost c = descriptor_views(accepted@);
    let mut k: usize = 0;
    while k < accepted.len()
        invariant
            c == descriptor_views(accepted@),
            id == (DeviceIdentity { vendor_id, product_id }),
            k <= accepted@.len(),
            forall|j: int| 0 <= j < k ==> identity_of(#[trigger] c[j]) != id,
        decreases accepted@.len() - k,
    {
        assert(c[k as int] == accepted@[k as int]@);
        if accepted[k].vendor_id == vendor_id && accepted[k].product_id == product_id {
            assert(identity_of(c[k as int]) == id);
            return true;
        }
        k = k + 1;
    }
    false
}

/// Filters and deduplicates a raw device list into the catalog: entries whose
/// manufacturer or product string is missing or empty are skipped, and of the
/// entries sharing a vendor/product pair only the first is kept; the order of
/// the list is kept.
pub fn enumerate_usb_devices(raw: &Vec<RawDevice>) -> (r: Vec<DeviceDescriptor>)
    ensures
        descriptor_views(r@) == catalog(raw_views(raw@)),
{
    let ghost rv = raw_views(raw@);
    let mut accepted: Vec<DeviceDescriptor> = Vec::new();
    let mut i: usize = 0;
    while i < raw.len()
        invariant
            rv == raw_views(raw@),
            i <= raw@.len(),
            descriptor_views(accepted@) == catalog(rv.subrange(0, i as int)),
        decreases raw@.len() - i,
    {
        let d = &raw[i];
        assert(rv.subrange(0, i + 1).drop_last() == rv.subrange(0, i as int));
        assert(rv.subrange(0, i + 1).last() == d@);
        if non_empty(&d.manufacturer_string) && non_empty(&d.product_string)
            && !holds_identity(&accepted, d.vendor_id, d.product_id) {
            let manufacturer_string = match &d.manufacturer_string {
                Some(s) => s.clone(),
                None => String::new(),
            };
            let product_string = match &d.product_string {
                Some(s) => s.clone(),
                None => String::new(),
            };
            let entry = DeviceDescriptor {
                vendor_id: d.vendor_id,
                product_id: d.product_id,
                manufacturer_string,
                product_string,
            };
            assert(entry@ == describe(d@));
            accepted.push(entry);
            assert(descriptor_views(accepted@) == catalog(rv.subrange(0, i + 1)));
        }
        i = i + 1;
    }
    assert(rv.subrange(0, raw@.len() as int) == rv);
    accepted
}

} // verus!
