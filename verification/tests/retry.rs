use baxzup::retry::{failed_access, FailurePolicy, RetryDecision};
use baxzup::static_ptr::StaticPointer;

#[test]
fn an_answer_to_retry_keeps_the_path() {
    let mut policy = FailurePolicy::new(false);
    assert!(!policy.resolve(RetryDecision::Retry));
    assert!(!policy.skips_all());
}

#[test]
fn an_answer_to_skip_gives_up_the_path_only() {
    let mut policy = FailurePolicy::new(false);
    assert!(policy.resolve(RetryDecision::SkipOne));
    assert!(!policy.skips_all());
}

#[test]
fn an_answer_to_skip_all_is_remembered() {
    let mut policy = FailurePolicy::new(false);
    assert!(policy.resolve(RetryDecision::SkipAllFuture));
    assert!(policy.skips_all());
    // The choice is never taken back.
    assert!(!policy.resolve(RetryDecision::Retry));
    assert!(policy.skips_all());
    assert!(policy.resolve(RetryDecision::SkipOne));
    assert!(policy.skips_all());
}

#[test]
fn failed_access_asks_once_unless_the_choice_is_made() {
    let mut asked = 0;
    let mut policy = FailurePolicy::new(false);
    assert!(!failed_access(&mut policy, || {
        asked += 1;
        RetryDecision::Retry
    }));
    assert!(failed_access(&mut policy, || {
        asked += 1;
        RetryDecision::SkipAllFuture
    }));
    assert_eq!(asked, 2);
    assert!(policy.skips_all());
    assert!(failed_access(&mut policy, || {
        asked += 1;
        RetryDecision::Retry
    }));
    assert_eq!(asked, 2);
}

#[test]
fn failed_access_skips_by_configuration() {
    let mut policy = FailurePolicy::new(true);
    assert!(failed_access(&mut policy, || panic!("the operator must not be asked")));
    assert!(policy.skips_all());
}

#[test]
fn a_slot_is_empty_or_holds_one_value() {
    let mut slot: StaticPointer<u32> = StaticPointer::null();
    assert!(slot.is_null());
    slot.set(Some(7));
    assert!(!slot.is_null());
    assert_eq!(*slot.deref(), 7);
    slot.set(Some(8));
    assert_eq!(*slot.deref(), 8);
    assert_eq!(slot.take(), Some(8));
    assert!(slot.is_null());
    assert_eq!(slot.take(), None);
    let full = StaticPointer::new(String::from("handoff"));
    assert!(!full.is_null());
    assert_eq!(full.deref(), "handoff");
    slot.set(None);
    assert!(slot.is_null());
}

#[test]
fn the_first_key_of_the_answer_decides() {
    assert_eq!(RetryDecision::from_key(Some(b'a')), RetryDecision::SkipAllFuture);
    assert_eq!(RetryDecision::from_key(Some(b'A')), RetryDecision::SkipAllFuture);
    assert_eq!(RetryDecision::from_key(Some(b'i')), RetryDecision::SkipOne);
    assert_eq!(RetryDecision::from_key(Some(b'I')), RetryDecision::SkipOne);
    assert_eq!(RetryDecision::from_key(Some(b'r')), RetryDecision::Retry);
    assert_eq!(RetryDecision::from_key(Some(b'x')), RetryDecision::Retry);
    assert_eq!(RetryDecision::from_key(None), RetryDecision::Retry);
}
