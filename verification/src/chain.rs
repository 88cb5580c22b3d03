//! The chain: linked nodes, and how one is built from a root and a list of
//! transactions.

use crate::codec::{
    decode, decoded, encoded, hex_encode, is_hex, is_hex_text, is_lower_case,
    lemma_decode_encoded, lemma_encoded_injective, lemma_encoded_is_hex, DecodeError,
};
use crate::hash::{sha256, sha256_digest};
use vstd::prelude::*;
use vstd::slice::slice_to_vec;
use vstd::utf8::*;

verus! {

/// One entry of a chain. A node owns the node that follows it.
#[derive(Debug, Hash)]
pub struct Node {
    /// A digest, as hexadecimal text.
    pub hash_state: String,
    /// The next node, or `None` at the end of the chain.
    pub next: Option<Box<Node>>,
}

impl Node {
    /// The hash states of the chain that starts at this node, in order.
    pub open spec fn states(&self) -> Seq<Seq<char>>
        decreases self,
    {
        match self.next {
            None => seq![self.hash_state@],
            Some(rest) => seq![self.hash_state@] + rest.states(),
        }
    }

    /// A chain is never empty, and its first state is this node's.
    pub proof fn lemma_head(&self)
        ensures
            self@.len() >= 1,
            self@[0] == self.hash_state@,
    {
    }

    /// A chain of one node, which holds `hash`.
    pub fn new(hash: String) -> (node: Node)
        ensures
            node.hash_state == hash,
            node.next is None,
            node@ == seq![hash@],
    {
        Node { hash_state: hash, next: None }
    }

    /// Links `node`, with all that follows it, after the last node of this
    /// chain. The walk to the end costs one step for each node on the way.
    pub fn insert(&mut self, node: Node)
        ensures
            final(self)@ == old(self)@ + node@,
            final(self).hash_state == old(self).hash_state,
        decreases *old(self),
    {
        if self.next.is_none() {
            self.next = Some(Box::new(node));
        } else {
            let next = self.next.as_mut().unwrap();
            next.insert(node);
        }
    }
}

impl Clone for Node {
    /// A copy of the whole chain that starts at this node.
    fn clone(&self) -> (copy: Node)
        ensures
            copy == *self,
        decreases self,
    {
        Node {
            hash_state: self.hash_state.clone(),
            next: match &self.next {
                Some(rest) => Some(Box::new((&**rest).clone())),
                None => None,
            },
        }
    }
}

impl View for Node {
    type V = Seq<Seq<char>>;

    open spec fn view(&self) -> Seq<Seq<char>> {
        self.states()
    }
}

/// The hash state of the node that is made for `transaction`: the digest of
/// its bytes, as hexadecimal text.
pub open spec fn tail_state(transaction: Seq<char>) -> Seq<char> {
    encoded(sha256(encode_utf8(transaction))@)
}

/// The bytes that folding `transaction` into `state` takes the digest of:
/// the digest of the transaction, and after it the state.
pub open spec fn fold_buffer(state: Seq<u8>, transaction: Seq<char>) -> Seq<u8> {
    sha256(encode_utf8(transaction))@ + state
}

/// The state after `transaction` was folded into `state`.
pub open spec fn fold(state: Seq<u8>, transaction: Seq<char>) -> Seq<u8> {
    sha256(fold_buffer(state, transaction))@
}

/// The running state of a chain that started in `state`, after
/// `transactions` were folded into it one by one, in their order.
pub open spec fn folded(state: Seq<u8>, transactions: Seq<Seq<char>>) -> Seq<u8>
    decreases transactions.len(),
{
    if transactions.len() == 0 {
        state
    } else {
        fold(folded(state, transactions.drop_last()), transactions.last())
    }
}

/// The hash state of the head of the chain built from `root` and
/// `transactions`: `root` itself while there is no transaction, and then the
/// running state, as hexadecimal text.
pub open spec fn head_state(root: Seq<char>, transactions: Seq<Seq<char>>) -> Seq<char> {
    if transactions.len() == 0 {
        root
    } else {
        encoded(folded(decoded(encode_utf8(root)), transactions))
    }
}

/// The hash states of the chain built from `root` and `transactions`: the
/// head's, then one for each transaction, in their order.
pub open spec fn chain_states(root: Seq<char>, transactions: Seq<Seq<char>>) -> Seq<Seq<char>> {
    seq![head_state(root, transactions)] + transactions.map_values(
        |transaction: Seq<char>| tail_state(transaction),
    )
}

/// The bytes whose digest is the next state of a chain: `tx_digest`, and
/// after it the bytes that `head_state` stands for.
pub fn combine(tx_digest: &[u8], head_state: &str) -> (res: Result<Vec<u8>, DecodeError>)
    ensures
        res is Ok <==> is_hex(encode_utf8(head_state@)),
        res matches Ok(bytes) ==> bytes@ == tx_digest@ + decoded(encode_utf8(head_state@)),
{
    let mut combined = slice_to_vec(tx_digest);
    match decode(head_state) {
        Ok(mut state) => {
            combined.append(&mut state);
            Ok(combined)
        },
        Err(error) => Err(error),
    }
}

/// Whether `res` is what building a chain from `root` and `transactions`
/// gives: the chain with the states of [`chain_states`], or a failure where
/// there is a transaction to fold and `root` is no hexadecimal string.
pub open spec fn built(
    root: Seq<char>,
    transactions: Seq<Seq<char>>,
    res: Result<Node, DecodeError>,
) -> bool {
    match res {
        Ok(chain) => {
            &&& transactions.len() == 0 || is_hex(encode_utf8(root))
            &&& chain@ == chain_states(root, transactions)
        },
        Err(_) => transactions.len() > 0 && !is_hex(encode_utf8(root)),
    }
}

/// Builds the chain for `root_hash` and `transactions`.
///
/// The head starts with `root_hash` as its hash state. Each transaction, in
/// order, gets a node of its own at the end of the chain, which holds the
/// transaction's digest, and is folded into the head: the head's hash state
/// becomes the digest of the transaction's digest followed by the bytes that
/// the head's hash state stood for.
///
/// Folding reads the head's hash state as a hexadecimal string. The states
/// that folding writes are such strings, so the chain cannot be built only
/// where there is a transaction to fold and `root_hash` is no hexadecimal
/// string.
pub fn build_chain(root_hash: String, transactions: Vec<String>) -> (res: Result<
    Node,
    DecodeError,
>)
    ensures
        built(root_hash@, transactions.deep_view(), res),
        res is Err <==> transactions.len() > 0 && !is_hex(encode_utf8(root_hash@)),
        res matches Ok(chain) ==> chain@.len() == transactions.len() + 1,
        res matches Ok(chain) ==> forall|i: int|
            0 <= i < transactions.len() ==> #[trigger] chain@[i + 1] == tail_state(
                transactions[i]@,
            ),
        transactions.len() == 0 ==> res is Ok && res->Ok_0@ == seq![root_hash@],
{
    let ghost start = decoded(encode_utf8(root_hash@));
    let ghost texts = transactions.deep_view();
    let mut root = Node::new(root_hash);
    let mut i: usize = 0;
    while i < transactions.len()
        invariant
            i <= transactions.len(),
            start == decoded(encode_utf8(root_hash@)),
            texts == transactions.deep_view(),
            root@ == chain_states(root_hash@, texts.take(i as int)),
            i > 0 ==> is_hex(encode_utf8(root_hash@)),
        decreases transactions.len() - i,
    {
        let ghost before = texts.take(i as int);
        let ghost after = texts.take(i + 1);
        proof {
            // The head holds the root, or the text of the state so far. Either
            // way it stands for that state.
            root.lemma_head();
            if i > 0 {
                lemma_decode_encoded(folded(start, before));
            }
            assert(decoded(encode_utf8(root.hash_state@)) == folded(start, before));
            assert(after.drop_last() =~= before);
            assert(after.last() == transactions[i as int]@);
        }
        let tx_hash = sha256_digest(transactions[i].as_str().as_bytes());
        let node = Node::new(hex_encode(tx_hash.as_slice()));
        root.insert(node);
        let combined = match combine(tx_hash.as_slice(), root.hash_state.as_str()) {
            Ok(bytes) => bytes,
            Err(error) => {
                return Err(error);
            },
        };
        let ghost linked = root@;
        let state = sha256_digest(combined.as_slice());
        root.hash_state = hex_encode(state.as_slice());
        proof {
            assert(state@ == folded(start, after));
            assert(root@ =~= seq![root.hash_state@] + linked.skip(1));
        }
        i += 1;
    }
    proof {
        assert(texts.take(i as int) =~= texts);
    }
    Ok(root)
}

/// Whether SHA-256 tells `first` and `second` apart: they are the same, or
/// their digests differ.
pub open spec fn collision_free(first: Seq<u8>, second: Seq<u8>) -> bool {
    sha256(first) == sha256(second) ==> first == second
}

/// Building is deterministic: two results for the same root and the same
/// transactions fail together, or hold the same hash state at every node.
pub proof fn lemma_build_deterministic(
    root: Seq<char>,
    transactions: Seq<Seq<char>>,
    first: Result<Node, DecodeError>,
    second: Result<Node, DecodeError>,
)
    requires
        built(root, transactions, first),
        built(root, transactions, second),
    ensures
        first is Err <==> second is Err,
        first is Ok ==> first->Ok_0@ == second->Ok_0@,
{
}

/// The hash state of a node after the head is the digest of its own
/// transaction. It depends neither on the root, nor on the other
/// transactions, nor on the node's place in the chain.
pub proof fn lemma_tail_independent(
    root: Seq<char>,
    transactions: Seq<Seq<char>>,
    i: int,
    other_root: Seq<char>,
    other_transactions: Seq<Seq<char>>,
    j: int,
)
    requires
        0 <= i < transactions.len(),
        0 <= j < other_transactions.len(),
        transactions[i] == other_transactions[j],
    ensures
        chain_states(root, transactions)[i + 1] == tail_state(transactions[i]),
        chain_states(root, transactions)[i + 1] == chain_states(
            other_root,
            other_transactions,
        )[j + 1],
{
}

/// Every hash state that building writes is the text of a digest: 64
/// hexadecimal digits in lower case. That is each state after the head's,
/// and the head's too once a transaction was folded.
pub proof fn lemma_written_states(root: Seq<char>, transactions: Seq<Seq<char>>, i: int)
    requires
        0 <= i <= transactions.len(),
        transactions.len() > 0,
    ensures
        chain_states(root, transactions)[i].len() == 64,
        is_hex_text(chain_states(root, transactions)[i]),
        is_lower_case(chain_states(root, transactions)[i]),
{
    if i == 0 {
        lemma_encoded_is_hex(folded(decoded(encode_utf8(root)), transactions));
    } else {
        lemma_encoded_is_hex(sha256(encode_utf8(transactions[i - 1]))@);
    }
}

/// The order of the transactions matters to the head, and to the head alone.
///
/// For two different transactions `a` and `b`, the chains of `a, b` and of
/// `b, a` hold the same two digests after the head. Their heads differ,
/// unless SHA-256 collides: on the two transactions, or on the two buffers
/// that the second fold takes the digest of.
pub proof fn lemma_order_sensitive(root: Seq<char>, a: Seq<char>, b: Seq<char>)
    requires
        a != b,
        collision_free(encode_utf8(a), encode_utf8(b)),
        collision_free(
            fold_buffer(fold(decoded(encode_utf8(root)), a), b),
            fold_buffer(fold(decoded(encode_utf8(root)), b), a),
        ),
    ensures
        head_state(root, seq![a, b]) != head_state(root, seq![b, a]),
        chain_states(root, seq![a, b])[0] != chain_states(root, seq![b, a])[0],
        chain_states(root, seq![a, b]).skip(1).to_set() == chain_states(root, seq![b, a]).skip(
            1,
        ).to_set(),
{
    let start = decoded(encode_utf8(root));
    let ab = seq![a, b];
    let ba = seq![b, a];
    let digest_a = sha256(encode_utf8(a));
    let digest_b = sha256(encode_utf8(b));

    assert(encode_utf8(a) != encode_utf8(b)) by {
        encode_utf8_decode_utf8(a);
        encode_utf8_decode_utf8(b);
    }
    assert(digest_a != digest_b);
    assert(digest_a@ != digest_b@) by {
        if digest_a@ == digest_b@ {
            assert(digest_a =~= digest_b);
        }
    }
    let buffer_ab = fold_buffer(fold(start, a), b);
    let buffer_ba = fold_buffer(fold(start, b), a);
    assert(buffer_ab != buffer_ba) by {
        assert(buffer_ab.subrange(0, 32) =~= digest_b@);
        assert(buffer_ba.subrange(0, 32) =~= digest_a@);
    }
    assert(folded(start, ab) == sha256(buffer_ab)@) by {
        assert(ab.drop_last() =~= seq![a]);
        assert(seq![a].drop_last() =~= Seq::<Seq<char>>::empty());
        reveal_with_fuel(folded, 3);
    }
    assert(folded(start, ba) == sha256(buffer_ba)@) by {
        assert(ba.drop_last() =~= seq![b]);
        assert(seq![b].drop_last() =~= Seq::<Seq<char>>::empty());
        reveal_with_fuel(folded, 3);
    }
    assert(folded(start, ab) != folded(start, ba)) by {
        if sha256(buffer_ab)@ == sha256(buffer_ba)@ {
            assert(sha256(buffer_ab) =~= sha256(buffer_ba));
        }
    }
    assert(head_state(root, ab) != head_state(root, ba)) by {
        if encoded(folded(start, ab)) == encoded(folded(start, ba)) {
            lemma_encoded_injective(folded(start, ab), folded(start, ba));
        }
    }

    let tails_ab = chain_states(root, ab).skip(1);
    let tails_ba = chain_states(root, ba).skip(1);
    assert(tails_ab =~= seq![tail_state(a), tail_state(b)]);
    assert(tails_ba =~= seq![tail_state(b), tail_state(a)]);
    assert forall|state: Seq<char>| tails_ab.contains(state) <==> tails_ba.contains(state) by {
        assert(tails_ab[0] == tails_ba[1]);
        assert(tails_ab[1] == tails_ba[0]);
    }
    assert(tails_ab.to_set() =~= tails_ba.to_set());
}

} // verus!
