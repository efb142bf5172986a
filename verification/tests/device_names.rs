use trirecover::devices::{
    classify_device, classify_device_upper, classify_kind, classify_kind_upper, is_whole_disk, map_bus, smart_available,
};
use trirecover::types::{DriveBus, DriveKind};

#[test]
fn whole_disks_are_recognised() {
    assert!(is_whole_disk("sda"));
    assert!(is_whole_disk("sd"));
    assert!(is_whole_disk("hdb"));
    assert!(is_whole_disk("vdc"));
    assert!(is_whole_disk("xvda"));
    assert!(is_whole_disk("nvme0n1"));
    assert!(is_whole_disk("mmcblk0"));
}

#[test]
fn partitions_and_other_devices_are_not_whole_disks() {
    assert!(!is_whole_disk("sda1"));
    assert!(!is_whole_disk("xvda12"));
    assert!(!is_whole_disk("nvme0n1p2"));
    assert!(!is_whole_disk("mmcblk0p1"));
    assert!(!is_whole_disk("loop0"));
    assert!(!is_whole_disk("dm-0"));
    assert!(!is_whole_disk(""));
}

#[test]
fn classifies_by_name_first() {
    assert_eq!(classify_device("nvme0n1", "Samsung SSD"), (DriveKind::Nvme, DriveBus::Nvme));
    assert_eq!(classify_device("mmcblk0", ""), (DriveKind::SdCard, DriveBus::Sd));
    assert_eq!(classify_device("vda", "ssd"), (DriveKind::Virtual, DriveBus::Virtual));
    assert_eq!(classify_device("xvdb", ""), (DriveKind::Virtual, DriveBus::Virtual));
}

#[test]
fn classifies_sata_by_model_case_insensitively() {
    assert_eq!(classify_device("sda", "Crucial ssd 500"), (DriveKind::Ssd, DriveBus::Sata));
    assert_eq!(classify_device("sdb", "Solid drive"), (DriveKind::Ssd, DriveBus::Sata));
    assert_eq!(classify_device("sdc", "WDC WD10EZEX"), (DriveKind::Hdd, DriveBus::Sata));
}

#[test]
fn classifies_kind_from_bus() {
    assert_eq!(classify_kind(DriveBus::Nvme, "x"), DriveKind::Nvme);
    assert_eq!(classify_kind(DriveBus::Usb, "SanDisk Cruzer Blade"), DriveKind::UsbFlash);
    assert_eq!(classify_kind(DriveBus::Usb, "usb flash disk"), DriveKind::UsbFlash);
    assert_eq!(classify_kind(DriveBus::Usb, "WD Elements"), DriveKind::External);
    assert_eq!(classify_kind(DriveBus::Sd, ""), DriveKind::SdCard);
    assert_eq!(classify_kind(DriveBus::Virtual, ""), DriveKind::Virtual);
    assert_eq!(classify_kind(DriveBus::Scsi, "nvme bridge"), DriveKind::Ssd);
    assert_eq!(classify_kind(DriveBus::Sata, "ST1000DM"), DriveKind::Hdd);
    assert_eq!(classify_kind(DriveBus::Unknown, "ssd"), DriveKind::Unknown);
}

#[test]
fn smart_buses() {
    assert!(smart_available(DriveBus::Sata));
    assert!(smart_available(DriveBus::Nvme));
    assert!(smart_available(DriveBus::Scsi));
    assert!(!smart_available(DriveBus::Usb));
    assert!(!smart_available(DriveBus::Unknown));
}

#[test]
fn windows_bus_codes() {
    assert_eq!(map_bus(17), DriveBus::Nvme);
    assert_eq!(map_bus(11), DriveBus::Sata);
    assert_eq!(map_bus(7), DriveBus::Usb);
    assert_eq!(map_bus(12), DriveBus::Sd);
    assert_eq!(map_bus(13), DriveBus::Sd);
    assert_eq!(map_bus(1), DriveBus::Scsi);
    assert_eq!(map_bus(10), DriveBus::Scsi);
    assert_eq!(map_bus(14), DriveBus::Virtual);
    assert_eq!(map_bus(15), DriveBus::Virtual);
    assert_eq!(map_bus(3), DriveBus::Unknown);
}

#[test]
fn classification_on_upper_cased_models() {
    assert_eq!(classify_device_upper("sda", "CRUCIAL SSD 500"), (DriveKind::Ssd, DriveBus::Sata));
    assert_eq!(classify_device_upper("sda", "crucial ssd 500"), (DriveKind::Hdd, DriveBus::Sata));
    assert_eq!(classify_device_upper("nvme0n1", ""), (DriveKind::Nvme, DriveBus::Nvme));
    assert_eq!(classify_kind_upper(DriveBus::Usb, "SANDISK CRUZER"), DriveKind::UsbFlash);
    assert_eq!(classify_kind_upper(DriveBus::Usb, "WD ELEMENTS"), DriveKind::External);
    assert_eq!(classify_kind_upper(DriveBus::Scsi, "SAMSUNG NVME"), DriveKind::Ssd);
}
