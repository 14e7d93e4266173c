//! Settlement of an order on the ledger: the state keys of an order
//! contract, reading one word of its state, and the solution that places a
//! bid.

use vstd::prelude::*;
use crate::order::{ContentAddress, PredicateAddress};

verus! {

/// State key of the amount on offer.
pub const ORDER_AMOUNT_KEY: i64 = 0;

/// State key of the price.
pub const PRICE_KEY: i64 = 1;

/// State key of the first token's address.
pub const TOKEN_A_KEY: i64 = 2;

/// State key of the second token's address.
pub const TOKEN_B_KEY: i64 = 3;

/// A key into contract state.
#[derive(Debug, PartialEq, Eq)]
pub struct CustomKey(pub Vec<i64>);

impl Clone for CustomKey {
    fn clone(&self) -> (copy: Self)
        ensures
            copy.0@ == self.0@,
    {
        CustomKey(self.0.clone())
    }
}

/// What a state query gave back: the words at a key, if the key is set.
#[derive(Debug, PartialEq, Eq)]
pub struct QueryState(pub Option<Vec<i64>>);

impl Clone for QueryState {
    fn clone(&self) -> (copy: Self)
        ensures
            copy.0 is Some <==> self.0 is Some,
            copy.0 is Some ==> copy.0->0@ == self.0->0@,
    {
        match &self.0 {
            Some(words) => QueryState(Some(words.clone())),
            None => QueryState(None),
        }
    }
}

/// A state query gave more than the one word that was asked for.
#[derive(Debug, PartialEq, Eq)]
pub struct ExpectedSingleWord {
    /// The words that the query gave.
    pub got: Vec<i64>,
}

/// The key made of the single word `key`.
pub fn get_key(key: i64) -> (made: CustomKey)
    ensures
        made.0@ == seq![key],
{
    let mut words: Vec<i64> = Vec::new();
    words.push(key);
    CustomKey(words)
}

/// The word that a query result stands for: zero where the key is unset or
/// holds no word, the word itself where it holds one, and none where it
/// holds more.
pub open spec fn single_word(state: Option<Seq<i64>>) -> Option<i64> {
    match state {
        None => Some(0i64),
        Some(words) => if words.len() == 0 {
            Some(0i64)
        } else if words.len() == 1 {
            Some(words[0])
        } else {
            None
        },
    }
}

impl QueryState {
    /// The words of the query result, if the key is set.
    pub open spec fn words(self) -> Option<Seq<i64>> {
        match self.0 {
            None => None,
            Some(words) => Some(words@),
        }
    }
}

/// Reads the single word of a query result. An unset key and an empty
/// value both read as zero. More than one word is an error, which hands
/// the words back.
pub fn extract_state(state: QueryState) -> (read: Result<i64, ExpectedSingleWord>)
    ensures
        read is Ok <==> single_word(state.words()) is Some,
        read is Ok ==> Some(read->Ok_0) == single_word(state.words()),
        read is Err ==> Some(read->Err_0.got@) == state.words(),
{
    match state.0 {
        None => Ok(0),
        Some(words) => {
            if words.len() == 0 {
                Ok(0)
            } else if words.len() == 1 {
                Ok(words[0])
            } else {
                Err(ExpectedSingleWord { got: words })
            }
        },
    }
}

/// A change of the value at one state key.
#[derive(Debug, PartialEq, Eq)]
pub struct Mutation {
    pub key: Vec<i64>,
    pub value: Vec<i64>,
}

/// The mathematical value of a [`Mutation`].
pub struct MutationView {
    pub key: Seq<i64>,
    pub value: Seq<i64>,
}

impl View for Mutation {
    type V = MutationView;

    open spec fn view(&self) -> MutationView {
        MutationView { key: self.key@, value: self.value@ }
    }
}

/// What a solver hands in to solve one predicate.
#[derive(Debug, PartialEq, Eq)]
pub struct SolutionData {
    pub predicate_to_solve: PredicateAddress,
    pub decision_variables: Vec<Vec<i64>>,
    pub transient_data: Vec<Mutation>,
    pub state_mutations: Vec<Mutation>,
}

/// The mathematical value of a [`SolutionData`].
pub struct SolutionDataView {
    pub predicate_to_solve: PredicateAddress,
    pub decision_variables: Seq<Seq<i64>>,
    pub transient_data: Seq<MutationView>,
    pub state_mutations: Seq<MutationView>,
}

impl View for SolutionData {
    type V = SolutionDataView;

    open spec fn view(&self) -> SolutionDataView {
        SolutionDataView {
            predicate_to_solve: self.predicate_to_solve,
            decision_variables: self.decision_variables@.map_values(|words: Vec<i64>| words@),
            transient_data: self.transient_data@.map_values(|m: Mutation| m@),
            state_mutations: self.state_mutations@.map_values(|m: Mutation| m@),
        }
    }
}

/// A solution: the data for each predicate it solves.
#[derive(Debug, PartialEq, Eq)]
pub struct Solution {
    pub data: Vec<SolutionData>,
}

impl View for Solution {
    type V = Seq<SolutionDataView>;

    open spec fn view(&self) -> Seq<SolutionDataView> {
        self.data@.map_values(|d: SolutionData| d@)
    }
}

/// The number that bytes spell when the first is the most significant.
pub open spec fn be_unsigned(bytes: Seq<u8>) -> int
    decreases bytes.len(),
{
    if bytes.len() == 0 {
        0
    } else {
        256 * be_unsigned(bytes.drop_last()) + bytes.last()
    }
}

/// The word that eight bytes spell: big-endian, two's complement.
pub open spec fn be_word(bytes: Seq<u8>) -> int {
    let unsigned = be_unsigned(bytes);
    if unsigned < 0x8000_0000_0000_0000 {
        unsigned
    } else {
        unsigned - 0x1_0000_0000_0000_0000
    }
}

/// Whether `words` are the four words of `bytes`, each from its eight
/// bytes in turn.
pub open spec fn spells(bytes: Seq<u8>, words: Seq<i64>) -> bool {
    &&& words.len() == 4
    &&& forall|i: int| 0 <= i < 4 ==> (#[trigger] words[i]) as int == be_word(bytes.subrange(8 * i, 8 * i + 8))
}

/// The four words of a content address.
pub open spec fn address_words(address: ContentAddress) -> Seq<i64> {
    Seq::new(4, |i: int| be_word(address.0@.subrange(8 * i, 8 * i + 8)) as i64)
}

/// The solution that places a bid of `new_bid` at `new_price` for a pair
/// of tokens. Amount, price and both token addresses go in as decision
/// variables. The state gets the amount, the price, and under both token
/// keys the words of `new_a`.
pub open spec fn bid_solution(
    predicate: PredicateAddress,
    new_bid: i64,
    new_price: i64,
    new_a: ContentAddress,
    new_b: ContentAddress,
) -> Seq<SolutionDataView> {
    seq![
        SolutionDataView {
            predicate_to_solve: predicate,
            decision_variables: seq![
                seq![new_bid],
                seq![new_price],
                address_words(new_a),
                address_words(new_b),
            ],
            transient_data: Seq::empty(),
            state_mutations: seq![
                MutationView { key: seq![ORDER_AMOUNT_KEY], value: seq![new_bid] },
                MutationView { key: seq![PRICE_KEY], value: seq![new_price] },
                MutationView { key: seq![TOKEN_A_KEY], value: address_words(new_a) },
                MutationView { key: seq![TOKEN_B_KEY], value: address_words(new_a) },
            ],
        },
    ]
}

/// Calls `essential_types::convert::word_4_from_u8_32`, which reads each
/// of the four words from its eight bytes, most significant byte first, as
/// a two's complement number.
#[verifier::external_body]
fn word_4_from_u8_32(bytes: [u8; 32]) -> (words: [i64; 4])
    ensures
        spells(bytes@, words@),
{
    essential_types::convert::word_4_from_u8_32(bytes)
}

/// The four words of `address`, as a value for a key or a decision
/// variable.
fn words_of(address: &ContentAddress) -> (words: Vec<i64>)
    ensures
        words@ == address_words(*address),
{
    let four = word_4_from_u8_32(address.0);
    let mut words: Vec<i64> = Vec::new();
    let mut i: usize = 0;
    while i < 4
        invariant
            i <= 4,
            four@.len() == 4,
            words@ == four@.take(i as int),
        decreases 4 - i,
    {
        words.push(four[i]);
        i += 1;
    }
    words
}

/// The value that holds the single word `word`.
fn one_word(word: i64) -> (words: Vec<i64>)
    ensures
        words@ == seq![word],
{
    let mut words: Vec<i64> = Vec::new();
    words.push(word);
    words
}

/// The mutation that sets the state at the one-word key `key` to `value`.
fn set_key(key: i64, value: Vec<i64>) -> (mutation: Mutation)
    ensures
        mutation@ == (MutationView { key: seq![key], value: value@ }),
{
    Mutation { key: one_word(key), value }
}

/// Makes the solution that places a bid of `new_bid` at `new_price` for
/// the tokens `new_a` and `new_b`, to be solved by `predicate`.
///
/// Both token keys of the state are set from `new_a`; `new_b` goes into
/// the decision variables only.
pub fn create_bid(
    predicate: PredicateAddress,
    new_bid: i64,
    new_price: i64,
    new_a: ContentAddress,
    new_b: ContentAddress,
) -> (solution: Solution)
    ensures
        solution@ == bid_solution(predicate, new_bid, new_price, new_a, new_b),
{
    let mut decision_variables: Vec<Vec<i64>> = Vec::new();
    decision_variables.push(one_word(new_bid));
    decision_variables.push(one_word(new_price));
    decision_variables.push(words_of(&new_a));
    decision_variables.push(words_of(&new_b));
    let mut state_mutations: Vec<Mutation> = Vec::new();
    state_mutations.push(set_key(ORDER_AMOUNT_KEY, one_word(new_bid)));
    state_mutations.push(set_key(PRICE_KEY, one_word(new_price)));
    state_mutations.push(set_key(TOKEN_A_KEY, words_of(&new_a)));
    state_mutations.push(set_key(TOKEN_B_KEY, words_of(&new_a)));
    let data = SolutionData {
        predicate_to_solve: predicate,
        decision_variables,
        transient_data: Vec::new(),
        state_mutations,
    };
    let ghost wanted = bid_solution(predicate, new_bid, new_price, new_a, new_b);
    assert(data@.decision_variables =~= wanted[0].decision_variables);
    assert(data@.transient_data =~= wanted[0].transient_data);
    assert(data@.state_mutations =~= wanted[0].state_mutations);
    let mut all: Vec<SolutionData> = Vec::new();
    all.push(data);
    let solution = Solution { data: all };
    solution
}

} // verus!
