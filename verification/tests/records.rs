use raft_election::records::{
    new_leader, push_decimal, stale_request, vote_granted, vote_rejected,
};
use raft_election::Id;

const SAMPLES: [u64; 12] = [
    0,
    1,
    9,
    10,
    11,
    99,
    100,
    101,
    1234567890,
    9_999_999_999_999_999_999,
    10_000_000_000_000_000_000,
    u64::MAX,
];

#[test]
fn decimal_of_zero_is_one_digit() {
    let mut text = String::new();
    push_decimal(&mut text, 0);
    assert_eq!(text, "0");
}

#[test]
fn decimal_has_no_leading_zeros() {
    let mut text = String::new();
    push_decimal(&mut text, 1000);
    assert_eq!(text, "1000");
    let mut text = String::new();
    push_decimal(&mut text, 7);
    assert_eq!(text, "7");
}

#[test]
fn decimal_is_appended_to_what_is_there() {
    let mut text = "term ".to_string();
    push_decimal(&mut text, 42);
    push_decimal(&mut text, 0);
    push_decimal(&mut text, 305);
    assert_eq!(text, "term 420305");
}

#[test]
fn decimal_agrees_with_the_standard_rendering() {
    for n in SAMPLES {
        let mut text = String::new();
        push_decimal(&mut text, n);
        assert_eq!(text, format!("{}", n));
    }
}

#[test]
fn decimal_renders_the_largest_number() {
    let mut text = String::new();
    push_decimal(&mut text, u64::MAX);
    assert_eq!(text, "18446744073709551615");
}

#[test]
fn granted_vote_is_worded_with_term_and_candidate() {
    assert_eq!(vote_granted(Id(3), 2).0, "[logterm: 2] cast vote for Id(3) at term 2");
    for n in SAMPLES {
        for m in SAMPLES {
            assert_eq!(
                vote_granted(Id(n), m).0,
                format!("[logterm: {:?}] cast vote for {:?} at term {:?}", m, Id(n), m)
            );
        }
    }
}

#[test]
fn rejected_vote_is_worded_with_term_and_candidate() {
    assert_eq!(vote_rejected(Id(10), 100).0, "[logterm: 100] rejected vote for Id(10) at term 100");
    for n in SAMPLES {
        for m in SAMPLES {
            assert_eq!(
                vote_rejected(Id(n), m).0,
                format!("[logterm: {:?}] rejected vote for {:?} at term {:?}", m, Id(n), m)
            );
        }
    }
}

#[test]
fn stale_request_is_worded_with_both_terms() {
    assert_eq!(
        stale_request(Id(12), 340, 7).0,
        "ignored a message with lower term from Id(12) with term 340 and sender term 7"
    );
    for n in SAMPLES {
        for m in SAMPLES {
            assert_eq!(
                stale_request(Id(n), m, n).0,
                format!(
                    "ignored a message with lower term from {:?} with term {:?} and sender term {:?}",
                    Id(n),
                    m,
                    n
                )
            );
        }
    }
}

#[test]
fn announcement_is_worded_with_leader_and_term() {
    assert_eq!(new_leader(Id(1), 1).0, "new leader Id(1) at term 1");
    for n in SAMPLES {
        for m in SAMPLES {
            assert_eq!(
                new_leader(Id(n), m).0,
                format!("new leader {:?} at term {:?}", Id(n), m)
            );
        }
    }
}
