use multisig_bridge::identity::{place, AccountId, CallId, Placement};
use multisig_bridge::vote::Vote;
use multisig_bridge::voters::{VoterEntry, VoterMap};

fn account(first: u8, last: u8) -> AccountId {
    let mut bytes = [0u8; 32];
    bytes[0] = first;
    bytes[31] = last;
    AccountId::new(bytes)
}

#[test]
fn place_goes_by_the_first_byte_that_differs() {
    let low = account(1, 200).bytes;
    let high = account(2, 0).bytes;
    assert_eq!(place(&low, &high), Placement::Before);
    assert_eq!(place(&high, &low), Placement::After);
    assert_eq!(place(&low, &low), Placement::Same);
}

#[test]
fn place_looks_at_the_last_byte_when_all_before_agree() {
    let a = account(7, 1).bytes;
    let b = account(7, 2).bytes;
    assert_eq!(place(&a, &b), Placement::Before);
    assert_eq!(place(&b, &a), Placement::After);
}

#[test]
fn identifiers_compare_by_bytes() {
    assert!(account(3, 4).same_as(&account(3, 4)));
    assert!(!account(3, 4).same_as(&account(3, 5)));
    assert!(CallId::new([9u8; 32]).same_as(&CallId::new([9u8; 32])));
    assert!(!CallId::new([9u8; 32]).same_as(&CallId::new([8u8; 32])));
}

#[test]
fn vote_accessors() {
    assert_eq!(Vote::Aye(7).raw_weight(), 7);
    assert_eq!(Vote::Nay(9).raw_weight(), 9);
    assert!(Vote::Aye(7).is_aye());
    assert!(!Vote::Nay(7).is_aye());
    assert_eq!(Vote::Aye(7).aye_weight(), 7);
    assert_eq!(Vote::Aye(7).nay_weight(), 0);
    assert_eq!(Vote::Nay(9).aye_weight(), 0);
    assert_eq!(Vote::Nay(9).nay_weight(), 9);
}

#[test]
fn new_map_is_empty() {
    let voters = VoterMap::new();
    assert_eq!(voters.len(), 0);
    assert_eq!(voters.get(&account(1, 1)), None);
}

#[test]
fn insert_keeps_voters_in_rising_order() {
    let mut voters = VoterMap::new();
    voters.insert(account(5, 0), Vote::Aye(50));
    voters.insert(account(1, 0), Vote::Nay(10));
    voters.insert(account(9, 0), Vote::Aye(90));
    voters.insert(account(3, 0), Vote::Aye(30));
    assert_eq!(voters.len(), 4);
    assert_eq!(voters.entry(0), VoterEntry { voter: account(1, 0), vote: Vote::Nay(10) });
    assert_eq!(voters.entry(1), VoterEntry { voter: account(3, 0), vote: Vote::Aye(30) });
    assert_eq!(voters.entry(2), VoterEntry { voter: account(5, 0), vote: Vote::Aye(50) });
    assert_eq!(voters.entry(3), VoterEntry { voter: account(9, 0), vote: Vote::Aye(90) });
}

#[test]
fn a_later_vote_replaces_the_earlier_one() {
    let mut voters = VoterMap::new();
    voters.insert(account(5, 0), Vote::Aye(50));
    voters.insert(account(1, 0), Vote::Nay(10));
    voters.insert(account(5, 0), Vote::Nay(7));
    assert_eq!(voters.len(), 2);
    assert_eq!(voters.get(&account(5, 0)), Some(Vote::Nay(7)));
    assert_eq!(voters.get(&account(1, 0)), Some(Vote::Nay(10)));
    assert_eq!(voters.get(&account(2, 0)), None);
}

#[test]
fn last_write_wins_over_a_sequence_of_votes() {
    let cast = [
        (account(4, 0), Vote::Aye(1)),
        (account(2, 0), Vote::Aye(2)),
        (account(4, 0), Vote::Nay(3)),
        (account(8, 0), Vote::Nay(4)),
        (account(2, 0), Vote::Nay(5)),
        (account(4, 0), Vote::Aye(6)),
    ];
    let mut voters = VoterMap::new();
    for (voter, vote) in cast {
        voters.insert(voter, vote);
    }
    assert_eq!(voters.len(), 3);
    assert_eq!(voters.get(&account(2, 0)), Some(Vote::Nay(5)));
    assert_eq!(voters.get(&account(4, 0)), Some(Vote::Aye(6)));
    assert_eq!(voters.get(&account(8, 0)), Some(Vote::Nay(4)));
}

#[test]
fn push_rising_takes_only_a_voter_above_the_last() {
    let mut voters = VoterMap::new();
    assert!(voters.push_rising(account(2, 0), Vote::Aye(1)));
    assert!(voters.push_rising(account(3, 0), Vote::Aye(2)));
    assert!(!voters.push_rising(account(3, 0), Vote::Nay(3)));
    assert!(!voters.push_rising(account(1, 0), Vote::Nay(4)));
    assert_eq!(voters.len(), 2);
    assert_eq!(voters.get(&account(3, 0)), Some(Vote::Aye(2)));
    assert_eq!(voters.get(&account(1, 0)), None);
}

#[test]
fn a_copy_of_a_map_equals_it() {
    let mut voters = VoterMap::new();
    voters.insert(account(5, 0), Vote::Aye(50));
    voters.insert(account(1, 0), Vote::Nay(10));
    let copy = voters.clone();
    assert_eq!(copy, voters);
    voters.ballots_rise();
}

#[test]
fn maps_built_in_different_orders_are_equal() {
    let mut one = VoterMap::new();
    one.insert(account(5, 0), Vote::Aye(50));
    one.insert(account(1, 0), Vote::Nay(10));
    let mut other = VoterMap::new();
    other.insert(account(1, 0), Vote::Nay(10));
    other.insert(account(5, 0), Vote::Aye(50));
    assert_eq!(one, other);
}
