use soulbeet::ui::{
    decimal_string, field_value_i32, folder_form_error, field_value_u8, profile_enabled, rating_scale_max,
    star_label, toggle_profile, DashboardTab,
};

#[test]
fn dashboard_opens_on_the_overview() {
    assert_eq!(DashboardTab::default(), DashboardTab::Overview);
}

#[test]
fn decimal_text() {
    assert_eq!(decimal_string(0), "0");
    assert_eq!(decimal_string(7), "7");
    assert_eq!(decimal_string(1234), "1234");
    assert_eq!(decimal_string(u64::MAX), u64::MAX.to_string());
}

#[test]
fn star_labels() {
    assert_eq!(star_label(1), "1 star");
    assert_eq!(star_label(2), "2 stars");
    assert_eq!(star_label(5), "5 stars");
    assert_eq!(star_label(0), "0 stars");
}

#[test]
fn rating_scale_is_the_largest_bar_or_one() {
    assert_eq!(rating_scale_max(&[0, 0, 0, 0, 0]), 1);
    assert_eq!(rating_scale_max(&[1, 7, 3, 0, 2]), 7);
    assert_eq!(rating_scale_max(&[0, 0, 0, 0, 9]), 9);
}

#[test]
fn profiles_enabled_by_trimmed_name() {
    assert!(profile_enabled("Balanced, Adventurous", "Adventurous"));
    assert!(profile_enabled("Balanced", "Balanced"));
    assert!(!profile_enabled("Balanced,Adventurous", "Conservative"));
    assert!(!profile_enabled("", "Balanced"));
    assert!(!profile_enabled("Balancedx", "Balanced"));
}

#[test]
fn toggling_removes_an_enabled_profile() {
    assert_eq!(toggle_profile("Balanced,Adventurous", "Balanced"), "Adventurous");
    assert_eq!(
        toggle_profile(" Balanced , Adventurous ,Balanced", "Balanced"),
        "Adventurous"
    );
}

#[test]
fn toggling_keeps_the_last_profile() {
    assert_eq!(toggle_profile("Balanced", "Balanced"), "Balanced");
    assert_eq!(toggle_profile("Balanced,,Balanced", "Balanced"), "Balanced");
}

#[test]
fn toggling_appends_a_disabled_profile() {
    assert_eq!(toggle_profile("Balanced", "Conservative"), "Balanced,Conservative");
    assert_eq!(toggle_profile(" a , ,b", "c"), "a,b,c");
    assert_eq!(toggle_profile("", "Balanced"), "Balanced");
}

#[test]
fn toggling_never_leaves_the_list_empty() {
    for list in ["", "Balanced", "Balanced,Conservative", " , "] {
        for p in ["Balanced", "Conservative", "Adventurous"] {
            assert!(!toggle_profile(list, p).is_empty());
        }
    }
}

#[test]
fn integer_fields_read_as_rust_reads_them() {
    assert_eq!(field_value_i32("20", 7), 20);
    assert_eq!(field_value_i32("+15", 7), 15);
    assert_eq!(field_value_i32("-3", 7), -3);
    assert_eq!(field_value_i32("007", 1), 7);
    assert_eq!(field_value_i32("", 20), 20);
    assert_eq!(field_value_i32("-", 20), 20);
    assert_eq!(field_value_i32(" 5", 20), 20);
    assert_eq!(field_value_i32("5x", 20), 20);
    assert_eq!(field_value_i32("2147483647", 0), i32::MAX);
    assert_eq!(field_value_i32("-2147483648", 0), i32::MIN);
    assert_eq!(field_value_i32("2147483648", 9), 9);
    assert_eq!(field_value_i32("99999999999999999999", 9), 9);
}

#[test]
fn integer_fields_agree_with_std() {
    for text in ["0", "42", "-42", "+0", "-0", "1e3", "", "+", "12 ", "٣", "300", "255", "256"] {
        assert_eq!(field_value_i32(text, 20), text.parse::<i32>().unwrap_or(20));
        assert_eq!(field_value_u8(text, 3), text.parse::<u8>().unwrap_or(3));
    }
}

#[test]
fn byte_fields() {
    assert_eq!(field_value_u8("4", 3), 4);
    assert_eq!(field_value_u8("255", 3), 255);
    assert_eq!(field_value_u8("256", 3), 3);
    assert_eq!(field_value_u8("-1", 3), 3);
    assert_eq!(field_value_u8("-0", 3), 3);
    assert_eq!(field_value_u8("+5", 3), 5);
}

#[test]
fn folder_form_needs_name_and_path() {
    assert_eq!(folder_form_error("Music", "/music"), None);
    assert_eq!(folder_form_error("", "/music"), Some("Name and Path are required".to_string()));
    assert_eq!(folder_form_error("Music", ""), Some("Name and Path are required".to_string()));
    assert_eq!(folder_form_error("", ""), Some("Name and Path are required".to_string()));
}
