use an758x_stock2ubi::cli::{check_kernel_version, parse_arguments, Invocation};

fn arguments(list: &[&str]) -> Vec<String> {
    list.iter().map(|argument| argument.to_string()).collect()
}

fn run(list: &[&str]) -> (String, bool) {
    match parse_arguments(&arguments(list)) {
        Ok(Invocation::Run { listen, ignore_kernel_version }) => (listen, ignore_kernel_version),
        other => panic!("{other:?}"),
    }
}

#[test]
fn reads_the_options() {
    assert_eq!(run(&[]), ("0.0.0.0:3333".to_string(), false));
    assert_eq!(run(&["--listen", "127.0.0.1:80"]), ("127.0.0.1:80".to_string(), false));
    assert_eq!(
        run(&["--ignore-kernel-version", "--listen", "--help"]),
        ("--help".to_string(), true)
    );
    assert_eq!(run(&["--listen", "a", "--listen", "b"]), ("b".to_string(), false));
    assert_eq!(
        run(&["--ignore-kernel-version", "--ignore-kernel-version"]),
        ("0.0.0.0:3333".to_string(), true)
    );
}

#[test]
fn the_first_that_asks_for_help_or_is_wrong_decides() {
    assert!(matches!(parse_arguments(&arguments(&["--help", "x"])), Ok(Invocation::Help)));
    assert!(matches!(parse_arguments(&arguments(&["-h"])), Ok(Invocation::Help)));
    assert_eq!(
        parse_arguments(&arguments(&["x", "--help"])).unwrap_err(),
        "Unknown argument: x"
    );
    assert_eq!(
        parse_arguments(&arguments(&["--listen"])).unwrap_err(),
        "--listen requires an address"
    );
    assert_eq!(parse_arguments(&arguments(&[""])).unwrap_err(), "Unknown argument: ");
    assert_eq!(
        parse_arguments(&arguments(&["--listen=a"])).unwrap_err(),
        "Unknown argument: --listen=a"
    );
}

#[test]
fn checks_the_kernel_release() {
    assert_eq!(check_kernel_version(false, Ok("5.4.55\n")), Ok(()));
    assert_eq!(check_kernel_version(true, Ok("6.1")), Ok(()));
    assert_eq!(check_kernel_version(true, Err("gone")), Ok(()));
    assert_eq!(
        check_kernel_version(false, Ok("5.4.551\n")).unwrap_err(),
        "Kernel release is 5.4.551; expected 5.4.55. Use --ignore-kernel-version to skip this check"
    );
    assert_eq!(
        check_kernel_version(false, Err("No such file or directory")).unwrap_err(),
        "Reading the kernel release failed: No such file or directory"
    );
}
