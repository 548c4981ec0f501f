use codelab::slides::{
    factorial, factorial2, factorial2_2, factorial3, holiday_gift, min, Character, Decision,
    Gift, Id, Memegen, Thing, WebEvent,
};

#[test]
fn test_min_good() {
    let a = "aaa".to_string();
    let b = "bbb".to_string();
    let m = min(a + "ccc", b);
    assert_eq!(m, "aaaccc");
}

#[test]
fn test_min_bad() {
    let a = "aaa".to_string();
    let b = "bbb".to_string();
    assert_eq!(min(&(a + "ccc"), &b), "aaaccc");
}

#[test]
fn test_min_fixed() {
    let a = "aaa".to_string();
    let b = "bbb".to_string();
    let a_plus_ccc = a + "ccc";
    let m = min(&a_plus_ccc, &b);
    assert_eq!(m, "aaaccc");
}

#[test]
fn min_of_equal_values_is_the_second() {
    assert_eq!(min(4, 4), 4);
    assert_eq!(min(7, 3), 3);
    assert_eq!(min(-2, 5), -2);
}

#[test]
fn test_construct_enums() {
    let _ = WebEvent::PageLoad;
    let _ = WebEvent::KeyPress('j');
    let _ = WebEvent::Click { x: 150, y: 230 };
}

#[test]
fn construct_plain_types() {
    let _ = Thing;
    let i = Id(1234);
    assert_eq!(i.0, 1234);
    let _ = Decision::Approved;
    Memegen::rant();
}

#[test]
fn test_factorial() {
    assert_eq!(factorial(0), 1);
    assert_eq!(factorial(1), 1);
    assert_eq!(factorial(4), 24);
}

#[test]
fn factorial_of_twenty_fits() {
    assert_eq!(factorial(20), 2432902008176640000);
}

#[test]
fn test_holiday_gift() {
    assert_eq!(holiday_gift(1998), Some(Gift::Cash(1000)));
    assert_eq!(holiday_gift(2007), Some(Gift::Cash(1000)));
    assert_eq!(holiday_gift(2008), Some(Gift::Phone));
    assert_eq!(holiday_gift(2013), Some(Gift::Phone));
    assert_eq!(holiday_gift(2014), Some(Gift::Watch));
    assert_eq!(holiday_gift(2015), Some(Gift::Phone));
    assert_eq!(holiday_gift(2016), None);
    assert_eq!(holiday_gift(2017), None);
    assert_eq!(holiday_gift(2100), None);
}

#[test]
fn holiday_gift_before_the_first_year() {
    assert_eq!(holiday_gift(1997), None);
    assert_eq!(holiday_gift(-5), None);
}

#[test]
fn test_factorial2() {
    assert_eq!(factorial2(0), Some(1));
    assert_eq!(factorial2(1), Some(1));
    assert_eq!(factorial2(4), Some(24));
    assert_eq!(factorial2(3928), None);
}

#[test]
fn test_factorial2_2() {
    assert_eq!(factorial2_2(0), Some(1));
    assert_eq!(factorial2_2(1), Some(1));
    assert_eq!(factorial2_2(4), Some(24));
    assert_eq!(factorial2_2(3928), None);
}

#[test]
fn test_factorial3() {
    assert_eq!(factorial3(0), Some(1));
    assert_eq!(factorial3(1), Some(1));
    assert_eq!(factorial3(4), Some(24));
    assert_eq!(factorial3(3928), None);
}

#[test]
fn checked_factorials_stop_at_twenty_one() {
    assert_eq!(factorial2(20), Some(2432902008176640000));
    assert_eq!(factorial2(21), None);
    assert_eq!(factorial2_2(20), Some(2432902008176640000));
    assert_eq!(factorial2_2(21), None);
    assert_eq!(factorial3(20), Some(2432902008176640000));
    assert_eq!(factorial3(21), None);
}

#[test]
fn format_person() {
    let person = Character {
        name: "Pikachu".to_string(),
        age: 6,
    };
    assert_eq!(person.describe(), "Character(Pikachu is 6)");
}
