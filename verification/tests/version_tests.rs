use springx::order::Order;
use springx::version::{compare_version, format_version_range, is_boot_version_in_range};

#[test]
fn compare_orders_numeric_parts_by_value() {
    assert_eq!(compare_version("3.4.4", "3.10.0"), Order::Less);
    assert_eq!(compare_version("3.10.0", "3.4.4"), Order::Greater);
    assert_eq!(compare_version("3.5", "3.5.0"), Order::Equal);
}

#[test]
fn compare_ignores_leading_v_and_build_metadata() {
    assert_eq!(compare_version("v3.4.4+build.5", "3.4.4"), Order::Equal);
    assert_eq!(compare_version("  V2.7.1 ", "2.7.1"), Order::Equal);
}

#[test]
fn compare_puts_prereleases_before_the_release() {
    assert_eq!(compare_version("3.5.0-M1", "3.5.0"), Order::Less);
    assert_eq!(compare_version("3.5.0", "3.5.0-RC1"), Order::Greater);
    assert_eq!(compare_version("3.5.0-M1", "3.5.0-RC1"), Order::Less);
    assert_eq!(compare_version("3.5.0-1", "3.5.0-M1"), Order::Less);
    assert_eq!(compare_version("3.5.0-2", "3.5.0-10"), Order::Less);
    assert_eq!(compare_version("3.5.0-rc.1", "3.5.0-RC.1"), Order::Equal);
    assert_eq!(compare_version("3.5.0-M1", "3.5.0-M1.1"), Order::Less);
}

#[test]
fn compare_is_an_order_on_examples() {
    let vs = ["3.4.4", "3.5.0-M1", "3.5.0", "v3.5.0", "2.7.18", "3.10.0-RC1"];
    for a in vs {
        assert_eq!(compare_version(a, a), Order::Equal);
        for b in vs {
            let ab = compare_version(a, b);
            let ba = compare_version(b, a);
            match ab {
                Order::Less => assert_eq!(ba, Order::Greater),
                Order::Greater => assert_eq!(ba, Order::Less),
                Order::Equal => assert_eq!(ba, Order::Equal),
            }
            for c in vs {
                if ab == Order::Less && compare_version(b, c) == Order::Less {
                    assert_eq!(compare_version(a, c), Order::Less);
                }
            }
        }
    }
}

#[test]
fn range_without_brackets_is_a_lower_bound() {
    assert!(is_boot_version_in_range("3.0.0", Some("3.0.0")));
    assert!(is_boot_version_in_range("3.1.0", Some("3.0.0")));
    assert!(!is_boot_version_in_range("2.7.0", Some("3.0.0")));
}

#[test]
fn range_with_bounds() {
    assert!(is_boot_version_in_range("3.4.4", Some("[3.0.0,3.5.0)")));
    assert!(!is_boot_version_in_range("3.5.0", Some("[3.0.0,3.5.0)")));
    assert!(is_boot_version_in_range("3.5.0", Some("[3.0.0,3.5.0]")));
    assert!(!is_boot_version_in_range("3.0.0", Some("(3.0.0,3.5.0)")));
    assert!(is_boot_version_in_range("3.0.0", Some("[3.0.0, 3.5.0)")));
    assert!(!is_boot_version_in_range("2.9.9", Some("[3.0.0,)")));
    assert!(is_boot_version_in_range("9.0.0", Some("[3.0.0,)")));
}

#[test]
fn missing_or_odd_ranges_accept_every_version() {
    assert!(is_boot_version_in_range("1.0.0", None));
    assert!(is_boot_version_in_range("1.0.0", Some("   ")));
    assert!(is_boot_version_in_range("1.0.0", Some("3.0.0,3.5.0")));
    assert!(is_boot_version_in_range("1.0.0", Some("[3.0.0,3.5.0")));
    assert!(is_boot_version_in_range("1.0.0", Some("[3.0.0]")) == false);
}

#[test]
fn format_range_in_words() {
    assert_eq!(format_version_range("[3.0.0,3.5.0)"), ">= 3.0.0, < 3.5.0");
    assert_eq!(format_version_range("(3.0.0,3.5.0]"), "> 3.0.0, <= 3.5.0");
    assert_eq!(format_version_range(" [3.0.0,) "), ">= 3.0.0");
    assert_eq!(format_version_range("3.0.0"), ">= 3.0.0");
    assert_eq!(format_version_range(""), "");
    assert_eq!(format_version_range("3.0.0,3.5.0"), ">= 3.0.0,3.5.0");
    assert_eq!(format_version_range("[1.0,2.0"), ">= 1.0, < 2.");
}
