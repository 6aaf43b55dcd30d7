use an758x_stock2ubi::unlock::{load_result, module_parameters, symbol_address};

const SYMBOLS: &str = "ffffffc010080000 t _head
ffffffc0105a1b20 T get_mtd_device_nm
short line
ffffffc0105a1c40 T get_mtd_device\t[mtd]
ffffffc0105a1d60 T put_mtd_device
1 T get_mtd_device
";

#[test]
fn finds_the_first_symbol_of_that_name() {
    assert_eq!(symbol_address(SYMBOLS, "get_mtd_device"), Ok(0xffffffc0105a1c40));
    assert_eq!(symbol_address(SYMBOLS, "put_mtd_device"), Ok(0xffffffc0105a1d60));
}

#[test]
fn says_why_a_symbol_is_unknown() {
    assert_eq!(
        symbol_address(SYMBOLS, "mtd_read").unwrap_err(),
        "mtd_read is absent from /proc/kallsyms"
    );
    assert_eq!(
        symbol_address("xyz T a\n1 T a\n", "a").unwrap_err(),
        "Invalid address for a"
    );
    assert_eq!(
        symbol_address("0000000000000000 T a\n", "a").unwrap_err(),
        "Address of a is hidden by the kernel"
    );
    assert_eq!(
        symbol_address("", "a").unwrap_err(),
        "a is absent from /proc/kallsyms"
    );
    assert_eq!(
        symbol_address("10000000000000000 T a\n", "a").unwrap_err(),
        "Invalid address for a"
    );
}

#[test]
fn hands_both_addresses_to_the_module() {
    let parameters = module_parameters(Ok(SYMBOLS)).unwrap();
    assert_eq!(
        parameters,
        "get_mtd_device_addr=0xffffffc0105a1c40 put_mtd_device_addr=0xffffffc0105a1d60"
    );
    assert!(!parameters.contains('\0'));
    assert_eq!(
        module_parameters(Ok("1 T put_mtd_device")).unwrap_err(),
        "get_mtd_device is absent from /proc/kallsyms"
    );
    assert_eq!(
        module_parameters(Ok("1 T get_mtd_device")).unwrap_err(),
        "put_mtd_device is absent from /proc/kallsyms"
    );
    assert_eq!(
        module_parameters(Err("Permission denied")).unwrap_err(),
        "Reading /proc/kallsyms failed: Permission denied"
    );
}

#[test]
fn a_loaded_module_is_as_good() {
    assert_eq!(load_result(0, None, 17, ""), Ok(()));
    assert_eq!(load_result(-1, Some(17), 17, "File exists"), Ok(()));
    assert_eq!(
        load_result(-1, Some(8), 17, "Exec format error").unwrap_err(),
        "init_module failed: Exec format error"
    );
    assert_eq!(
        load_result(-1, None, 17, "unknown").unwrap_err(),
        "init_module failed: unknown"
    );
}
