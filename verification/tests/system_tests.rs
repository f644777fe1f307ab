use asterctl::system::{format_bytes, StorageDevice};

#[test]
fn test_format_bytes() {
    assert_eq!(format_bytes(0), "0 B");
    assert_eq!(format_bytes(1024), "1.00 KB");
    assert_eq!(format_bytes(1048576), "1.00 MB");
    assert_eq!(format_bytes(1073741824), "1.00 GB");
}

#[test]
fn format_bytes_fractions_and_large_units() {
    assert_eq!(format_bytes(1), "1 B");
    assert_eq!(format_bytes(1023), "1023 B");
    assert_eq!(format_bytes(1536), "1.50 KB");
    assert_eq!(format_bytes(1099511627776), "1.00 TB");
    assert_eq!(format_bytes(1125899906842624), "1.00 PB");
}

#[test]
fn storage_device_kinds_compare() {
    assert_eq!(StorageDevice::Nvme, StorageDevice::Nvme);
    assert_ne!(StorageDevice::Hdd, StorageDevice::Ssd);
}
