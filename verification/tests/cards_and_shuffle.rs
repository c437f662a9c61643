use std::cmp::Ordering;
use zk_werewolf::cards::{card_cmp, card_to_string, GameErrors, WerewolfCard, WerewolfRole};
use zk_werewolf::shuffle::{
    card_layout, inverse, partial_permutation, Num, Parameters, PartialShuffle, Permutation, ShuffleError,
    Statement, Witness,
};

#[test]
fn test_partial_shuffle() {
    let m = 1;
    let n = 14;
    let number_of_ciphers = m * n;

    let parameters = Parameters::new();

    let permutation = Permutation { mapping: (0..number_of_ciphers).collect(), size: number_of_ciphers };

    let witness = Witness::new(&permutation);

    let statement = Statement::new(3, number_of_ciphers);

    let proof = PartialShuffle::prove(&parameters, &statement, &witness).unwrap();

    assert_eq!((), PartialShuffle::verify(&parameters, &statement, &proof).unwrap());
}

#[test]
fn partial_shuffle_reveals_the_last_fixed_positions() {
    let parameters = Parameters::new();
    let permutation = Permutation { mapping: (0..14).collect(), size: 14 };
    let witness = Witness::new(&permutation);
    let statement = Statement::new(3, 14);
    let proof = PartialShuffle::prove(&parameters, &statement, &witness).unwrap();
    assert_eq!(proof.partial_permutation, vec![11, 12, 13]);
    assert_eq!(proof.verify(&statement), Ok(()));
}

#[test]
fn partial_shuffle_rejects_a_moved_position() {
    let parameters = Parameters::new();
    let mut mapping: Vec<usize> = (0..10).collect();
    mapping.swap(8, 9);
    let permutation = Permutation { mapping, size: 10 };
    let witness = Witness::new(&permutation);
    let statement = Statement::new(2, 10);
    let proof = PartialShuffle::prove(&parameters, &statement, &witness).unwrap();
    assert_eq!(proof.partial_permutation, vec![9, 8]);
    assert_eq!(
        proof.verify(&statement),
        Err(ShuffleError::ProofVerificationError("Partial Shuffle".to_string()))
    );
}

#[test]
fn a_shuffle_of_the_other_positions_still_verifies() {
    let parameters = Parameters::new();
    let mut mapping: Vec<usize> = (0..10).collect();
    mapping.swap(0, 5);
    let permutation = Permutation { mapping, size: 10 };
    let witness = Witness::new(&permutation);
    let statement = Statement::new(2, 10);
    let proof = PartialShuffle::prove(&parameters, &statement, &witness).unwrap();
    assert_eq!(PartialShuffle::verify(&parameters, &statement, &proof), Ok(()));
}

#[test]
fn numbers_of_a_casting() {
    let num = Num::new([3, 1, 1, 3]);
    assert_eq!(num.players, 8);
    assert_eq!(num.groups, 6);
    assert_eq!(num.cards, 14);
    assert_eq!(num.decks, 3);
}

#[test]
fn deck_layout_players_then_roles() {
    let deck = card_layout(3, 2, 1, 1);
    assert_eq!(
        deck,
        vec![
            WerewolfCard::Player(0),
            WerewolfCard::Player(1),
            WerewolfCard::Player(2),
            WerewolfCard::Role(WerewolfRole::Villager),
            WerewolfCard::Role(WerewolfRole::Villager),
            WerewolfCard::Role(WerewolfRole::Hunter),
            WerewolfCard::Role(WerewolfRole::Seer),
            WerewolfCard::Role(WerewolfRole::Werewolf),
        ]
    );
}

#[test]
fn partial_permutation_and_its_inverse() {
    let p = partial_permutation(vec![2, 0, 1], 3, 6);
    assert_eq!(p.mapping, vec![2, 0, 1, 3, 4, 5]);
    let q = inverse(&p);
    assert_eq!(q.mapping, vec![1, 2, 0, 3, 4, 5]);
    for i in 0..6 {
        assert_eq!(q.mapping[p.mapping[i]], i);
    }
}

#[test]
fn cards_are_ordered_players_first() {
    let a = WerewolfCard::Player(3);
    let b = WerewolfCard::Player(10);
    let v = WerewolfCard::Role(WerewolfRole::Villager);
    let w = WerewolfCard::Role(WerewolfRole::Werewolf);
    assert_eq!(card_cmp(&a, &b), Ordering::Less);
    assert_eq!(card_cmp(&b, &v), Ordering::Less);
    assert_eq!(card_cmp(&w, &v), Ordering::Greater);
    assert_eq!(card_cmp(&w, &w), Ordering::Equal);
    assert!(a < w);
    assert_eq!(a.partial_cmp(&b), Some(a.cmp(&b)));
    assert_eq!(card_to_string(&b), "10");
    assert_eq!(card_to_string(&w), "人狼");
    assert_eq!(b.unwrap_player(), 10);
    assert_eq!(v.unwrap_role(), WerewolfRole::Villager);
    assert_eq!(GameErrors::InvalidCard.to_string(), "Invalid card");
}
