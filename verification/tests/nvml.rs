use ptx::nvml::{error_string, system_get_driver_version, unimplemented, NvmlReturn};

#[test]
fn version_fits_a_large_buffer() {
    assert_eq!(system_get_driver_version(100), b"550.77\0".to_vec());
    assert_eq!(system_get_driver_version(7), b"550.77\0".to_vec());
}

#[test]
fn version_is_truncated_and_terminated() {
    assert_eq!(system_get_driver_version(3), b"55\0".to_vec());
    assert_eq!(system_get_driver_version(1), b"\0".to_vec());
}

#[test]
fn zero_length_buffer_gets_nothing() {
    assert_eq!(system_get_driver_version(0), Vec::<u8>::new());
}

#[test]
fn stubs_report_their_status() {
    assert_eq!(unimplemented(), NvmlReturn::ErrorNotSupported);
    assert_eq!(error_string(NvmlReturn::Success), Vec::<u8>::new());
}
