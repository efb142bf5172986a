//! Naming rules for Linux block devices: which `/sys/block` names are whole
//! disks, and what kind of drive and bus a name and model suggest.

use crate::commands::starts_with;
use crate::types::{DriveBus, DriveKind};
use vstd::prelude::*;

verus! {

/// What `str::to_uppercase` gives for a text: its characters upper-cased by
/// the Unicode case mapping (which may change the length, `ß` becoming
/// `SS`). A function of the text alone.
pub uninterp spec fn unicode_uppercase(s: Seq<char>) -> Seq<char>;

/// Calls `str::to_uppercase`; its contract claims only that the result is
/// [`unicode_uppercase`] of the text.
#[verifier::external_body]
fn to_uppercase(s: &str) -> (r: String)
    ensures
        r@ == unicode_uppercase(s@),
{
    s.to_uppercase()
}

/// `s` holds `p` somewhere.
pub open spec fn contains_text(s: Seq<char>, p: Seq<char>) -> bool {
    exists|i: int| 0 <= i && i + p.len() <= s.len() && #[trigger] s.subrange(i, i + p.len()) == p
}

fn text_contains(s: &str, p: &str) -> (b: bool)
    ensures
        b == contains_text(s@, p@),
{
    let n: usize = s.unicode_len();
    let m: usize = p.unicode_len();
    if m > n {
        return false;
    }
    let mut i: usize = 0;
    while i <= n - m
        invariant
            n == s@.len(),
            m == p@.len(),
            m <= n,
            i <= n - m + 1,
            forall|j: int| 0 <= j < i ==> #[trigger] s@.subrange(j, j + m) != p@,
        decreases n - m + 1 - i,
    {
        let mut k: usize = 0;
        let mut same: bool = true;
        while k < m
            invariant
                n == s@.len(),
                m == p@.len(),
                i + m <= n,
                k <= m,
                same == (forall|q: int| 0 <= q < k ==> s@[i + q] == p@[q]),
            decreases m - k,
        {
            if s.get_char(i + k) != p.get_char(k) {
                same = false;
            }
            k += 1;
        }
        if same {
            assert(s@.subrange(i as int, i + m) =~= p@);
            return true;
        }
        proof {
            let q = choose|q: int| 0 <= q < m && s@[i + q] != p@[q];
            assert(s@.subrange(i as int, i + m)[q] != p@[q]);
        }
        i += 1;
    }
    proof {
        assert forall|j: int| 0 <= j && j + p@.len() <= s@.len() implies #[trigger] s@.subrange(j, j + p@.len()) != p@ by {
            assert(j < i);
        }
    }
    false
}

fn starts(s: &str, p: &str) -> (b: bool)
    ensures
        b == starts_with(s@, p@),
{
    let n: usize = p.unicode_len();
    if s.unicode_len() < n {
        return false;
    }
    let mut i: usize = 0;
    while i < n
        invariant
            n == p@.len(),
            n <= s@.len(),
            i <= n,
            forall|j: int| 0 <= j < i ==> s@[j] == p@[j],
        decreases n - i,
    {
        if s.get_char(i) != p.get_char(i) {
            assert(s@.subrange(0, n as int)[i as int] != p@[i as int]);
            return false;
        }
        i += 1;
    }
    assert(s@.subrange(0, n as int) =~= p@);
    true
}

fn has_char(s: &str, c: char) -> (b: bool)
    ensures
        b == s@.contains(c),
{
    let n: usize = s.unicode_len();
    let mut i: usize = 0;
    while i < n
        invariant
            n == s@.len(),
            i <= n,
            forall|j: int| 0 <= j < i ==> s@[j] != c,
        decreases n - i,
    {
        if s.get_char(i) == c {
            assert(s@[i as int] == c);
            return true;
        }
        i += 1;
    }
    false
}

/// Whether a `/sys/block` name is a whole disk: `sd`, `hd`, `vd` and `xvd`
/// names that do not end in a digit, `nvme` and `mmcblk` names without a
/// `p` (which marks a partition).
pub open spec fn spec_is_whole_disk(name: Seq<char>) -> bool {
    if starts_with(name, "sd"@) || starts_with(name, "hd"@) || starts_with(name, "vd"@) || starts_with(name, "xvd"@) {
        !('0' <= name.last() && name.last() <= '9')
    } else if starts_with(name, "nvme"@) || starts_with(name, "mmcblk"@) {
        !name.contains('p')
    } else {
        false
    }
}

/// Whether a block device name is a whole disk rather than a partition.
pub fn is_whole_disk(name: &str) -> (b: bool)
    ensures
        b == spec_is_whole_disk(name@),
{
    proof {
        reveal_strlit("sd");
        reveal_strlit("hd");
        reveal_strlit("vd");
        reveal_strlit("xvd");
    }
    if starts(name, "sd") || starts(name, "hd") || starts(name, "vd") || starts(name, "xvd") {
        let n: usize = name.unicode_len();
        let c: char = name.get_char(n - 1);
        return !('0' <= c && c <= '9');
    }
    if starts(name, "nvme") || starts(name, "mmcblk") {
        return !has_char(name, 'p');
    }
    false
}

/// Kind and bus of a drive from its device name and its upper-cased model.
pub open spec fn spec_classify_device(name: Seq<char>, upper_model: Seq<char>) -> (DriveKind, DriveBus) {
    if starts_with(name, "nvme"@) {
        (DriveKind::Nvme, DriveBus::Nvme)
    } else if starts_with(name, "mmcblk"@) {
        (DriveKind::SdCard, DriveBus::Sd)
    } else if starts_with(name, "vd"@) || starts_with(name, "xvd"@) {
        (DriveKind::Virtual, DriveBus::Virtual)
    } else if contains_text(upper_model, "SSD"@) || contains_text(upper_model, "SOLID"@) {
        (DriveKind::Ssd, DriveBus::Sata)
    } else {
        (DriveKind::Hdd, DriveBus::Sata)
    }
}

/// Kind and bus of a drive from its device name and its model, already
/// upper-cased.
pub fn classify_device_upper(name: &str, upper_model: &str) -> (r: (DriveKind, DriveBus))
    ensures
        r == spec_classify_device(name@, upper_model@),
{
    if starts(name, "nvme") {
        return (DriveKind::Nvme, DriveBus::Nvme);
    }
    if starts(name, "mmcblk") {
        return (DriveKind::SdCard, DriveBus::Sd);
    }
    if starts(name, "vd") || starts(name, "xvd") {
        return (DriveKind::Virtual, DriveBus::Virtual);
    }
    let kind: DriveKind = if text_contains(upper_model, "SSD") || text_contains(upper_model, "SOLID") {
        DriveKind::Ssd
    } else {
        DriveKind::Hdd
    };
    (kind, DriveBus::Sata)
}

/// Kind and bus of a drive from its device name and model.
pub fn classify_device(name: &str, model: &str) -> (r: (DriveKind, DriveBus))
    ensures
        r == spec_classify_device(name@, unicode_uppercase(model@)),
{
    let m: String = to_uppercase(model);
    classify_device_upper(name, m.as_str())
}

/// Kind of a drive from its bus and its upper-cased model, as the Windows
/// enumeration decides it.
pub open spec fn spec_classify_kind(bus: DriveBus, upper_model: Seq<char>) -> DriveKind {
    match bus {
        DriveBus::Nvme => DriveKind::Nvme,
        DriveBus::Usb => if contains_text(upper_model, "FLASH"@) || contains_text(upper_model, "UDISK"@)
            || contains_text(upper_model, "CRUZER"@) {
            DriveKind::UsbFlash
        } else {
            DriveKind::External
        },
        DriveBus::Sd => DriveKind::SdCard,
        DriveBus::Virtual => DriveKind::Virtual,
        DriveBus::Sata | DriveBus::Scsi => if contains_text(upper_model, "SSD"@) || contains_text(upper_model, "NVME"@)
            || contains_text(upper_model, "SOLID"@) {
            DriveKind::Ssd
        } else {
            DriveKind::Hdd
        },
        _ => DriveKind::Unknown,
    }
}

/// Kind of a drive from the bus it reports and its model, already
/// upper-cased.
pub fn classify_kind_upper(bus: DriveBus, upper_model: &str) -> (k: DriveKind)
    ensures
        k == spec_classify_kind(bus, upper_model@),
{
    match bus {
        DriveBus::Nvme => DriveKind::Nvme,
        DriveBus::Usb => {
            if text_contains(upper_model, "FLASH") || text_contains(upper_model, "UDISK") || text_contains(
                upper_model,
                "CRUZER",
            ) {
                DriveKind::UsbFlash
            } else {
                DriveKind::External
            }
        },
        DriveBus::Sd => DriveKind::SdCard,
        DriveBus::Virtual => DriveKind::Virtual,
        DriveBus::Sata | DriveBus::Scsi => {
            if text_contains(upper_model, "SSD") || text_contains(upper_model, "NVME") || text_contains(
                upper_model,
                "SOLID",
            ) {
                DriveKind::Ssd
            } else {
                DriveKind::Hdd
            }
        },
        _ => DriveKind::Unknown,
    }
}

/// Kind of a drive from the bus it reports and its model.
pub fn classify_kind(bus: DriveBus, model: &str) -> (k: DriveKind)
    ensures
        k == spec_classify_kind(bus, unicode_uppercase(model@)),
{
    let m: String = to_uppercase(model);
    classify_kind_upper(bus, m.as_str())
}

/// The bus named by a Windows `STORAGE_BUS_TYPE` code: NVMe 17, SATA 11,
/// USB 7, SD 12 and MMC 13, SCSI 1 and SAS 10, virtual 14 and file-backed
/// virtual 15; any other code is unknown.
pub open spec fn spec_map_bus(code: i32) -> DriveBus {
    if code == 17 {
        DriveBus::Nvme
    } else if code == 11 {
        DriveBus::Sata
    } else if code == 7 {
        DriveBus::Usb
    } else if code == 12 || code == 13 {
        DriveBus::Sd
    } else if code == 1 || code == 10 {
        DriveBus::Scsi
    } else if code == 14 || code == 15 {
        DriveBus::Virtual
    } else {
        DriveBus::Unknown
    }
}

/// The bus a Windows storage descriptor reports.
pub fn map_bus(code: i32) -> (b: DriveBus)
    ensures
        b == spec_map_bus(code),
{
    match code {
        17 => DriveBus::Nvme,
        11 => DriveBus::Sata,
        7 => DriveBus::Usb,
        12 | 13 => DriveBus::Sd,
        1 | 10 => DriveBus::Scsi,
        14 | 15 => DriveBus::Virtual,
        _ => DriveBus::Unknown,
    }
}

/// Whether SMART can be queried over a bus.
pub fn smart_available(bus: DriveBus) -> (b: bool)
    ensures
        b == (bus == DriveBus::Sata || bus == DriveBus::Nvme || bus == DriveBus::Scsi),
{
    match bus {
        DriveBus::Sata | DriveBus::Nvme | DriveBus::Scsi => true,
        _ => false,
    }
}

} // verus!
