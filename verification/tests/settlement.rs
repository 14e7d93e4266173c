use order_book::order::{ContentAddress, PredicateAddress};
use order_book::settlement::{
    create_bid, extract_state, get_key, CustomKey, ExpectedSingleWord, Mutation, QueryState,
    Solution, SolutionData, ORDER_AMOUNT_KEY, PRICE_KEY, TOKEN_A_KEY, TOKEN_B_KEY,
};

fn counting_address(start: u8) -> ContentAddress {
    let mut bytes = [0u8; 32];
    for (i, byte) in bytes.iter_mut().enumerate() {
        *byte = start.wrapping_add(i as u8);
    }
    ContentAddress(bytes)
}

fn edge_address() -> ContentAddress {
    let mut bytes = [0u8; 32];
    bytes[7] = 1;
    for byte in bytes[8..16].iter_mut() {
        *byte = 0xff;
    }
    bytes[16] = 0x80;
    bytes[24] = 0x7f;
    for byte in bytes[25..32].iter_mut() {
        *byte = 0xff;
    }
    ContentAddress(bytes)
}

fn solver() -> PredicateAddress {
    PredicateAddress { contract: counting_address(200), predicate: counting_address(7) }
}

#[test]
fn keys_are_distinct_small_words() {
    assert_eq!(ORDER_AMOUNT_KEY, 0);
    assert_eq!(PRICE_KEY, 1);
    assert_eq!(TOKEN_A_KEY, 2);
    assert_eq!(TOKEN_B_KEY, 3);
}

#[test]
fn get_key_wraps_one_word() {
    assert_eq!(get_key(PRICE_KEY), CustomKey(vec![1]));
    assert_eq!(get_key(-9).0, vec![-9]);
    assert_eq!(get_key(i64::MAX).clone(), CustomKey(vec![i64::MAX]));
}

#[test]
fn unset_state_reads_as_zero() {
    assert_eq!(extract_state(QueryState(None)), Ok(0));
}

#[test]
fn empty_state_reads_as_zero() {
    assert_eq!(extract_state(QueryState(Some(Vec::new()))), Ok(0));
}

#[test]
fn single_word_state_reads_as_the_word() {
    assert_eq!(extract_state(QueryState(Some(vec![3000]))), Ok(3000));
    assert_eq!(extract_state(QueryState(Some(vec![-1]))), Ok(-1));
    assert_eq!(extract_state(QueryState(Some(vec![0])).clone()), Ok(0));
}

#[test]
fn longer_state_is_an_error() {
    assert_eq!(
        extract_state(QueryState(Some(vec![1, 2]))),
        Err(ExpectedSingleWord { got: vec![1, 2] })
    );
    assert_eq!(
        extract_state(QueryState(Some(vec![0, 0, 0]))),
        Err(ExpectedSingleWord { got: vec![0, 0, 0] })
    );
}

#[test]
fn create_bid_builds_one_solution_data() {
    let token_a = edge_address();
    let token_b = counting_address(0);
    let solution = create_bid(solver(), 2, 3000, token_a, token_b);
    let words_a = vec![1, -1, i64::MIN, i64::MAX];
    let words_b = vec![
        0x0001_0203_0405_0607,
        0x0809_0a0b_0c0d_0e0f,
        0x1011_1213_1415_1617,
        0x1819_1a1b_1c1d_1e1f,
    ];
    assert_eq!(
        solution,
        Solution {
            data: vec![SolutionData {
                predicate_to_solve: solver(),
                decision_variables: vec![vec![2], vec![3000], words_a.clone(), words_b],
                transient_data: Vec::new(),
                state_mutations: vec![
                    Mutation { key: vec![0], value: vec![2] },
                    Mutation { key: vec![1], value: vec![3000] },
                    Mutation { key: vec![2], value: words_a.clone() },
                    Mutation { key: vec![3], value: words_a },
                ],
            }],
        }
    );
}

#[test]
fn create_bid_words_agree_with_the_word_conversion() {
    let token_a = counting_address(0x79);
    let token_b = counting_address(0xf0);
    let solution = create_bid(solver(), -5, 0, token_a, token_b);
    let data = &solution.data[0];
    assert_eq!(
        data.decision_variables[2],
        essential_types::convert::word_4_from_u8_32(token_a.0).to_vec()
    );
    assert_eq!(
        data.decision_variables[3],
        essential_types::convert::word_4_from_u8_32(token_b.0).to_vec()
    );
    assert_eq!(data.decision_variables[0], vec![-5]);
    assert_eq!(data.decision_variables[1], vec![0]);
    assert_eq!(data.state_mutations[2].value, data.decision_variables[2]);
    assert_eq!(data.state_mutations[3].value, data.decision_variables[2]);
    assert!(data.decision_variables[2].iter().any(|w| *w < 0));
}

#[test]
fn price_state_round_trip() {
    let solution = create_bid(solver(), 2, 3000, counting_address(1), counting_address(2));
    let price = solution.data[0]
        .state_mutations
        .iter()
        .find(|m| m.key == get_key(PRICE_KEY).0)
        .map(|m| m.value.clone());
    assert_eq!(extract_state(QueryState(price)), Ok(3000));
}
