use an758x_stock2ubi::display::format_size;

#[test]
fn formats_exact_binary_units() {
    assert_eq!(format_size(128 * 1024), "128 KiB");
    assert_eq!(format_size(60 * 1024 * 1024), "60 MiB");
}

#[test]
fn formats_split_rootfs_lengths_in_the_expected_unit() {
    assert_eq!(format_size(8_396), "8.20 KiB");
    assert_eq!(format_size(62_906_164), "59.99 MiB");
    assert_eq!(format_size(4_541_282), "4.33 MiB");
}

#[test]
fn formats_sizes_below_a_kibibyte_in_bytes() {
    assert_eq!(format_size(0), "0 B");
    assert_eq!(format_size(1), "1 B");
    assert_eq!(format_size(1023), "1023 B");
    assert_eq!(format_size(1024), "1 KiB");
}

#[test]
fn rounds_ties_to_the_even_hundredth() {
    assert_eq!(format_size(1152), "1.12 KiB");
    assert_eq!(format_size(1179648), "1.12 MiB");
    assert_eq!(format_size(1408), "1.38 KiB");
    assert_eq!(format_size(1029), "1.00 KiB");
    assert_eq!(format_size(1_048_575), "1024.00 KiB");
}

/// What binary64 arithmetic shows.
fn float_text(size: u64) -> String {
    if size >= 1024 * 1024 {
        if size % (1024 * 1024) == 0 {
            format!("{} MiB", size / (1024 * 1024))
        } else {
            format!("{:.2} MiB", size as f64 / (1024 * 1024) as f64)
        }
    } else if size >= 1024 {
        if size % 1024 == 0 {
            format!("{} KiB", size / 1024)
        } else {
            format!("{:.2} KiB", size as f64 / 1024 as f64)
        }
    } else {
        format!("{size} B")
    }
}

#[test]
fn agrees_with_float_arithmetic_on_every_kibibyte_size() {
    for size in 0..(1024u64 * 1024) {
        if size % 7 == 0 || size < 20_000 {
            assert_eq!(format_size(size), float_text(size));
        }
    }
}

#[test]
fn agrees_with_float_arithmetic_on_large_sizes() {
    for shift in 20..64u32 {
        let base = 1u64 << shift;
        for delta in 0..40u64 {
            assert_eq!(format_size(base + delta), float_text(base + delta));
            assert_eq!(format_size(base - delta), float_text(base - delta));
            let mixed = base + (base >> 3) + delta * 524_288;
            assert_eq!(format_size(mixed), float_text(mixed));
            let odd = base + (base / 3) + delta * 5243;
            assert_eq!(format_size(odd), float_text(odd));
        }
    }
    for delta in 0..5000u64 {
        assert_eq!(format_size(u64::MAX - delta), float_text(u64::MAX - delta));
        let near = (1u64 << 53) + delta;
        assert_eq!(format_size(near), float_text(near));
        let above = (1u64 << 62) + delta * 129;
        assert_eq!(format_size(above), float_text(above));
    }
}
