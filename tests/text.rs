use pingap::text::{cookie_pairs, find_char, split_text, trim_text};
use pingap::limit::get_client_ip;

fn pair(k: &str, v: &str) -> (String, String) {
    (k.to_string(), v.to_string())
}

#[test]
fn splitting_and_trimming() {
    assert_eq!(vec!["a", "", "b c"], split_text("a;;b c", ';'));
    assert_eq!(vec![""], split_text("", ';'));
    assert_eq!("x y", trim_text("  x y "));
    assert_eq!("", trim_text("   "));
    assert_eq!(Some(1), find_char("a=b=c", '='));
    assert_eq!(None, find_char("abc", '='));
}

#[test]
fn cookies_of_a_header() {
    assert_eq!(
        vec![pair("a", "1"), pair("b", "x=y")],
        cookie_pairs("a=1; junk ; b = x=y")
    );
}

#[test]
fn client_address_resolution() {
    let forwarded = vec![pair("x-forwarded-for", " 1.1.1.1 , 192.168.1.2"), pair("x-real-ip", "9.9.9.9")];
    assert_eq!("1.1.1.1", get_client_ip(&forwarded, "10.0.0.1"));
    let real = vec![pair("x-real-ip", "9.9.9.9")];
    assert_eq!("9.9.9.9", get_client_ip(&real, "10.0.0.1"));
    assert_eq!("10.0.0.1", get_client_ip(&vec![], "10.0.0.1"));
}
