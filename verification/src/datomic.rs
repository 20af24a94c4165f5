//! The transactional key-value store: txn batches of reads and appends,
//! executed against a snapshot of a single root map and committed with one
//! compare-and-swap at the linearizable store.
use vstd::prelude::*;

use crate::assoc;
use crate::error::Error;

verus! {

/// One transaction operation.
#[derive(Clone, Copy, PartialEq, Eq, Structural, Debug)]
pub enum Op {
    Read,
    Append,
}

/// A store key: a 64-bit integer, which may arrive wire-encoded as an
/// integer or as a decimal string.
#[derive(Clone, Copy, PartialEq, Eq, Structural, Debug, Hash)]
pub struct Key(pub u64);

/// A key as it appears on the wire.
pub enum IntOrString {
    Int(u64),
    Text(String),
}

/// A stored value: an integer or a list of integers.
pub enum Value {
    Int(u64),
    List(Vec<u64>),
}

/// The mathematical shape of a stored value.
pub enum ValueView {
    Int(u64),
    List(Seq<u64>),
}

impl ValueView {
    /// The integer sequence a value denotes; an integer is a singleton.
    pub open spec fn elements(self) -> Seq<u64> {
        match self {
            ValueView::Int(a) => seq![a],
            ValueView::List(s) => s,
        }
    }
}

impl View for Value {
    type V = ValueView;

    closed spec fn view(&self) -> ValueView {
        match self {
            Value::Int(a) => ValueView::Int(*a),
            Value::List(v) => ValueView::List(v@),
        }
    }
}

/// Appends every element of `src` to `dst`.
fn push_all(dst: &mut Vec<u64>, src: &Vec<u64>)
    ensures
        final(dst)@ == old(dst)@ + src@,
{
    let mut i: usize = 0;
    while i < src.len()
        invariant
            i <= src.len(),
            dst@ == old(dst)@ + src@.take(i as int),
        decreases src.len() - i,
    {
        dst.push(src[i]);
        proof {
            assert((old(dst)@ + src@.take(i as int)).push(src@[i as int]) =~= old(dst)@
                + src@.take(i as int + 1));
        }
        i = i + 1;
    }
    proof {
        assert(src@.take(src@.len() as int) =~= src@);
    }
}

impl Value {
    /// The empty value: an empty list.
    pub fn empty() -> (r: Value)
        ensures
            r@ == ValueView::List(Seq::<u64>::empty()),
    {
        Value::List(Vec::new())
    }

    /// Concatenation; integer operands are promoted to singleton lists.
    pub fn append(&self, other: &Value) -> (r: Value)
        ensures
            r@ == ValueView::List(self@.elements() + other@.elements()),
    {
        let mut out: Vec<u64> = Vec::new();
        match self {
            Value::Int(a) => {
                out.push(*a);
                proof {
                    assert(out@ =~= self@.elements());
                }
            },
            Value::List(v) => {
                push_all(&mut out, v);
                proof {
                    assert(out@ =~= self@.elements());
                }
            },
        }
        let ghost mine = out@;
        match other {
            Value::Int(b) => {
                out.push(*b);
                proof {
                    assert(out@ =~= mine + other@.elements());
                }
            },
            Value::List(v) => {
                push_all(&mut out, v);
            },
        }
        Value::List(out)
    }

    /// An equal value, element for element.
    pub fn duplicate(&self) -> (r: Value)
        ensures
            r@ == self@,
    {
        match self {
            Value::Int(a) => Value::Int(*a),
            Value::List(v) => Value::List(v.clone()),
        }
    }
}

/// The root map: keys to values, unique by key.
pub struct Tree {
    entries: Vec<(Key, Value)>,
}

impl Tree {
    /// The entries at the view level.
    pub closed spec fn entries_view(self) -> Seq<(u64, ValueView)> {
        self.entries@.map_values(|p: (Key, Value)| (p.0.0, p.1@))
    }

    /// The finite map this tree denotes.
    pub open spec fn as_map(self) -> Map<u64, ValueView> {
        assoc::map_of(self.entries_view())
    }

    /// Keys are unique.
    pub open spec fn wf(self) -> bool {
        assoc::keys_unique(self.entries_view())
    }

    /// The empty tree, as a missing root is treated.
    pub fn new() -> (r: Tree)
        ensures
            r.wf(),
            r.as_map() == Map::<u64, ValueView>::empty(),
    {
        let t = Tree { entries: Vec::new() };
        proof {
            assert(t.entries_view() =~= Seq::<(u64, ValueView)>::empty());
        }
        t
    }

    fn find(&self, key: Key) -> (r: Option<usize>)
        ensures
            r matches Some(i) ==> i < self.entries_view().len() && self.entries_view()[i as int].0
                == key.0,
            r is None ==> !assoc::has_key(self.entries_view(), key.0),
    {
        let mut i: usize = 0;
        while i < self.entries.len()
            invariant
                i <= self.entries.len(),
                self.entries_view().len() == self.entries@.len(),
                forall|j: int| 0 <= j < i ==> self.entries_view()[j].0 != key.0,
            decreases self.entries.len() - i,
        {
            if self.entries[i].0.0 == key.0 {
                return Some(i);
            }
            i = i + 1;
        }
        proof {
            if assoc::has_key(self.entries_view(), key.0) {
                let j = choose|j: int|
                    0 <= j < self.entries_view().len() && self.entries_view()[j].0 == key.0;
            }
        }
        None
    }

    /// The value stored at the key, if any.
    pub fn get(&self, key: Key) -> (r: Option<&Value>)
        requires
            self.wf(),
        ensures
            r matches Some(v) ==> self.as_map().contains_key(key.0) && v@ == self.as_map()[key.0],
            r is None ==> !self.as_map().contains_key(key.0),
    {
        proof {
            assoc::lemma_map_of_contains(self.entries_view(), key.0);
        }
        match self.find(key) {
            Some(i) => {
                proof {
                    assoc::lemma_map_of_index(self.entries_view(), i as int);
                }
                Some(&self.entries[i].1)
            },
            None => None,
        }
    }

    /// Stores a value at the key, replacing any previous one.
    pub fn insert(&mut self, key: Key, value: Value)
        requires
            old(self).wf(),
        ensures
            final(self).wf(),
            final(self).as_map() == old(self).as_map().insert(key.0, value@),
    {
        let ghost pre = self.entries_view();
        match self.find(key) {
            Some(i) => {
                proof {
                    assoc::lemma_map_of_update(pre, i as int, value@);
                }
                self.entries.set(i, (key, value));
                proof {
                    assert(self.entries_view() =~= pre.update(i as int, (key.0, value@)));
                    assert((key.0, value@) == (pre[i as int].0, value@));
                }
            },
            None => {
                proof {
                    assoc::lemma_map_of_push(pre, (key.0, value@));
                }
                self.entries.push((key, value));
                proof {
                    assert(self.entries_view() =~= pre.push((key.0, value@)));
                    assert forall|a: int, b: int|
                        0 <= a < b < self.entries_view().len() implies self.entries_view()[a].0
                        != self.entries_view()[b].0 by {
                        if b < pre.len() {
                        } else {
                            assert(self.entries_view()[b].0 == key.0);
                            if pre[a].0 == key.0 {
                                assert(assoc::has_key(pre, key.0));
                            }
                        }
                    }
                }
            },
        }
    }

    /// An equal tree, entry for entry.
    pub fn duplicate(&self) -> (r: Tree)
        ensures
            r.entries_view() == self.entries_view(),
            r.as_map() == self.as_map(),
            r.wf() == self.wf(),
    {
        let mut out: Vec<(Key, Value)> = Vec::new();
        let mut i: usize = 0;
        while i < self.entries.len()
            invariant
                i <= self.entries.len(),
                out@.len() == i,
                forall|j: int|
                    0 <= j < i ==> (#[trigger] out@[j].0) == self.entries@[j].0 && out@[j].1@
                        == self.entries@[j].1@,
            decreases self.entries.len() - i,
        {
            let key = self.entries[i].0;
            let value = self.entries[i].1.duplicate();
            out.push((key, value));
            i = i + 1;
        }
        let t = Tree { entries: out };
        proof {
            assert(t.entries_view() =~= self.entries_view());
        }
        t
    }
}

/// An ordered batch of operations; reads carry no value on the way in and
/// the observed value on the way out.
pub struct Txn {
    pub txn: Vec<(Op, Key, Option<Value>)>,
}

/// An optional value at the view level.
pub open spec fn opt_view(o: Option<Value>) -> Option<ValueView> {
    match o {
        Some(v) => Some(v@),
        None => None,
    }
}

/// One operation triple at the view level.
pub open spec fn triple_view(t: (Op, Key, Option<Value>)) -> (Op, u64, Option<ValueView>) {
    (
        t.0,
        t.1.0,
        match t.2 {
            Some(v) => Some(v@),
            None => None,
        },
    )
}

/// A batch of triples at the view level.
pub open spec fn triples_view(s: Seq<(Op, Key, Option<Value>)>) -> Seq<(Op, u64, Option<ValueView>)> {
    s.map_values(|t: (Op, Key, Option<Value>)| triple_view(t))
}

impl View for Txn {
    type V = Seq<(Op, u64, Option<ValueView>)>;

    open spec fn view(&self) -> Seq<(Op, u64, Option<ValueView>)> {
        triples_view(self.txn@)
    }
}

/// Runs a batch over a store: reads fill their value slot from the current
/// store, appends extend the stored list (a missing key reads as the empty
/// list). An append without a value fails the whole batch.
pub open spec fn run_ops(
    m: Map<u64, ValueView>,
    ops: Seq<(Op, u64, Option<ValueView>)>,
) -> Option<(Map<u64, ValueView>, Seq<(Op, u64, Option<ValueView>)>)>
    decreases ops.len(),
{
    if ops.len() == 0 {
        Some((m, ops))
    } else {
        let (op, key, val) = ops[0];
        match op {
            Op::Read => {
                let read = if m.contains_key(key) {
                    Some(m[key])
                } else {
                    None
                };
                match run_ops(m, ops.drop_first()) {
                    Some(p) => Some((p.0, seq![(op, key, read)] + p.1)),
                    None => None,
                }
            },
            Op::Append => match val {
                None => None,
                Some(v) => {
                    let cur = if m.contains_key(key) {
                        m[key].elements()
                    } else {
                        Seq::<u64>::empty()
                    };
                    let m2 = m.insert(key, ValueView::List(cur + v.elements()));
                    match run_ops(m2, ops.drop_first()) {
                        Some(p) => Some((p.0, seq![(op, key, val)] + p.1)),
                        None => None,
                    }
                },
            },
        }
    }
}

/// Applies a whole batch to a snapshot of the root: returns the new root and
/// the batch with read values filled in, or fails when an append carries no
/// value, leaving nothing to commit.
pub fn apply_txn(root: &Tree, txn: &Txn) -> (r: Result<(Tree, Txn), Error>)
    requires
        root.wf(),
    ensures
        (match run_ops(root.as_map(), txn@) {
            Some(p) => r matches Ok(t) && t.0.wf() && t.0.as_map() == p.0 && t.1@ == p.1,
            None => r == Err::<(Tree, Txn), Error>(Error::MissingAppendValue),
        }),
{
    let mut working = root.duplicate();
    let mut filled: Vec<(Op, Key, Option<Value>)> = Vec::new();
    let mut i: usize = 0;
    let ghost all = txn@;
    proof {
        assert(all.skip(0) =~= all);
        assert(triples_view(filled@) =~= Seq::<(Op, u64, Option<ValueView>)>::empty());
    }
    while i < txn.txn.len()
        invariant
            i <= txn.txn.len(),
            all == txn@,
            all.len() == txn.txn@.len(),
            working.wf(),
            root.wf(),
            triples_view(filled@).len() == i,
            (run_ops(working.as_map(), all.skip(i as int)) matches Some(p) ==> run_ops(
                root.as_map(),
                all,
            ) == Some((p.0, triples_view(filled@) + p.1))),
            (run_ops(working.as_map(), all.skip(i as int)) is None ==> run_ops(root.as_map(), all)
                is None),
        decreases txn.txn.len() - i,
    {
        let ghost rem = all.skip(i as int);
        let ghost m = working.as_map();
        let ghost tv = triples_view(filled@);
        proof {
            assert(rem[0] == all[i as int]);
            assert(all[i as int] == triple_view(txn.txn@[i as int]));
            assert(rem.drop_first() =~= all.skip(i as int + 1));
        }
        let entry = &txn.txn[i];
        let op = entry.0;
        let key = entry.1;
        match op {
            Op::Read => {
                let observed: Option<Value> = match working.get(key) {
                    Some(v) => Some(v.duplicate()),
                    None => None,
                };
                let ghost head = (op, key.0, opt_view(observed));
                filled.push((op, key, observed));
                proof {
                    assert(triples_view(filled@) =~= tv.push(head));
                    match run_ops(working.as_map(), all.skip(i as int + 1)) {
                        Some(p) => {
                            assert(run_ops(m, rem) == Some((p.0, seq![head] + p.1)));
                            assert(tv + (seq![head] + p.1) =~= tv.push(head) + p.1);
                        },
                        None => {
                            assert(run_ops(m, rem) is None);
                        },
                    }
                }
            },
            Op::Append => {
                match &entry.2 {
                    None => {
                        proof {
                            assert(run_ops(m, rem) is None);
                        }
                        return Err(Error::MissingAppendValue);
                    },
                    Some(to_append) => {
                        let base = match working.get(key) {
                            Some(v) => v.duplicate(),
                            None => Value::empty(),
                        };
                        let next = base.append(to_append);
                        let ghost head = (op, key.0, Some(to_append@));
                        filled.push((op, key, Some(to_append.duplicate())));
                        working.insert(key, next);
                        proof {
                            assert(triples_view(filled@) =~= tv.push(head));
                            let cur = if m.contains_key(key.0) {
                                m[key.0].elements()
                            } else {
                                Seq::<u64>::empty()
                            };
                            assert(working.as_map() == m.insert(
                                key.0,
                                ValueView::List(cur + to_append@.elements()),
                            ));
                            match run_ops(working.as_map(), all.skip(i as int + 1)) {
                                Some(p) => {
                                    assert(run_ops(m, rem) == Some((p.0, seq![head] + p.1)));
                                    assert(tv + (seq![head] + p.1) =~= tv.push(head) + p.1);
                                },
                                None => {
                                    assert(run_ops(m, rem) is None);
                                },
                            }
                        }
                    },
                }
            },
        }
        i = i + 1;
    }
    proof {
        assert(all.skip(all.len() as int) =~= Seq::<(Op, u64, Option<ValueView>)>::empty());
        assert(run_ops(working.as_map(), all.skip(all.len() as int)) == Some(
            (working.as_map(), Seq::<(Op, u64, Option<ValueView>)>::empty()),
        ));
        assert(triples_view(filled@) + Seq::<(Op, u64, Option<ValueView>)>::empty() =~= triples_view(
            filled@,
        ));
    }
    Ok((working, Txn { txn: filled }))
}


/// A decimal digit.
pub open spec fn is_digit(c: char) -> bool {
    '0' as u32 <= c as u32 && c as u32 <= '9' as u32
}

/// The numeric value of a decimal digit.
pub open spec fn digit_val(c: char) -> int {
    c as u32 - '0' as u32
}

/// Every character is a decimal digit.
pub open spec fn all_digits(s: Seq<char>) -> bool {
    forall|i: int| 0 <= i < s.len() ==> is_digit(#[trigger] s[i])
}

/// The digit part of a wire key string: one optional leading `+` is allowed.
pub open spec fn digits_of(s: Seq<char>) -> Seq<char> {
    if s.len() > 0 && s[0] == '+' {
        s.drop_first()
    } else {
        s
    }
}

/// The value a digit string denotes, most significant digit first.
pub open spec fn dec_val(s: Seq<char>) -> int
    decreases s.len(),
{
    if s.len() == 0 {
        0
    } else {
        dec_val(s.drop_last()) * 10 + digit_val(s.last())
    }
}

/// A wire key string parses exactly when its digit part is nonempty, all
/// digits, and its value fits in 64 bits.
pub open spec fn parse_ok(s: Seq<char>) -> bool {
    digits_of(s).len() > 0 && all_digits(digits_of(s)) && dec_val(digits_of(s)) <= u64::MAX
}

/// Digit strings denote nonnegative values.
proof fn lemma_dec_val_nonneg(s: Seq<char>)
    requires
        all_digits(s),
    ensures
        dec_val(s) >= 0,
    decreases s.len(),
{
    if s.len() > 0 {
        assert forall|j: int|
            0 <= j < s.drop_last().len() implies is_digit(#[trigger] s.drop_last()[j]) by {
            assert(s.drop_last()[j] == s[j]);
        }
        lemma_dec_val_nonneg(s.drop_last());
        assert(is_digit(s.last()));
    }
}

/// A digit string's value only grows with more digits.
proof fn lemma_dec_val_take(s: Seq<char>, k: int)
    requires
        all_digits(s),
        0 <= k <= s.len(),
    ensures
        0 <= dec_val(s.take(k)),
        dec_val(s.take(k)) <= dec_val(s),
    decreases s.len() - k,
{
    assert forall|j: int| 0 <= j < s.take(k).len() implies is_digit(#[trigger] s.take(k)[j]) by {
        assert(s.take(k)[j] == s[j]);
    }
    lemma_dec_val_nonneg(s.take(k));
    if k == s.len() {
        assert(s.take(k) =~= s);
    } else {
        assert(s.take(k + 1).drop_last() =~= s.take(k));
        assert(s.take(k + 1).last() == s[k]);
        assert(is_digit(s[k]));
        lemma_dec_val_take(s, k + 1);
    }
}

impl Key {
    /// Decodes a wire key: an integer as itself, a decimal string as std's
    /// u64 parser reads it (one optional leading `+`, then digits).
    pub fn try_from(value: IntOrString) -> (r: Result<Key, Error>)
        ensures
            (match value {
                IntOrString::Int(v) => r == Ok::<Key, Error>(Key(v)),
                IntOrString::Text(s) => {
                    &&& (r is Ok <==> parse_ok(s@))
                    &&& (r matches Ok(k) ==> k.0 == dec_val(digits_of(s@)))
                    &&& (r is Err ==> r == Err::<Key, Error>(Error::DeserializationFailed))
                },
            }),
    {
        match value {
            IntOrString::Int(v) => Ok(Key(v)),
            IntOrString::Text(t) => parse_key_text(t.as_str()),
        }
    }
}

/// Parses a decimal key string: one optional leading `+`, then only digits,
/// whose value must fit in 64 bits.
pub fn parse_key_text(s: &str) -> (r: Result<Key, Error>)
    ensures
        (r is Ok <==> parse_ok(s@)),
        (r matches Ok(k) ==> k.0 == dec_val(digits_of(s@))),
        (r is Err ==> r == Err::<Key, Error>(Error::DeserializationFailed)),
{
    let n = s.unicode_len();
    let mut i: usize = 0;
    if n > 0 && s.get_char(0) == '+' {
        i = 1;
    }
    let i0 = i;
    let ghost d = digits_of(s@);
    proof {
        if i0 == 1 {
            assert(d =~= s@.skip(1));
        } else {
            assert(d =~= s@.skip(0));
        }
    }
    if i >= n {
        return Err(Error::DeserializationFailed);
    }
    let mut acc: u64 = 0;
    proof {
        assert(d.take(0) =~= Seq::<char>::empty());
    }
    while i < n
        invariant
            i0 <= i <= n,
            n == s@.len(),
            i0 == 0 || i0 == 1,
            d == digits_of(s@),
            d == s@.skip(i0 as int),
            d.len() == n - i0,
            all_digits(d.take((i - i0) as int)),
            acc == dec_val(d.take((i - i0) as int)),
        decreases n - i,
    {
        let ghost k = (i - i0) as int;
        let c = s.get_char(i);
        proof {
            assert(d[k] == s@[i as int]);
        }
        if (c as u32) < ('0' as u32) || (c as u32) > ('9' as u32) {
            proof {
                assert(!is_digit(d[k]));
            }
            return Err(Error::DeserializationFailed);
        }
        let dig = ((c as u32) - ('0' as u32)) as u64;
        proof {
            assert(d.take(k + 1).drop_last() =~= d.take(k));
            assert(d.take(k + 1).last() == d[k]);
            assert forall|j: int|
                0 <= j < d.take(k + 1).len() implies is_digit(#[trigger] d.take(k + 1)[j]) by {
                if j < k {
                    assert(d.take(k + 1)[j] == d.take(k)[j]);
                } else {
                    assert(d.take(k + 1)[j] == d[k]);
                }
            }
        }
        let next = match acc.checked_mul(10) {
            Some(t) => t.checked_add(dig),
            None => None,
        };
        match next {
            Some(v) => {
                acc = v;
            },
            None => {
                proof {
                    // this prefix already exceeds the range, so the whole
                    // digit string does, unless a later character fails first
                    if all_digits(d) {
                        lemma_dec_val_take(d, k + 1);
                    }
                }
                return Err(Error::DeserializationFailed);
            },
        }
        i = i + 1;
    }
    proof {
        assert(d.take((n - i0) as int) =~= d);
    }
    Ok(Key(acc))
}

/// The store after applying only the appends of a batch, in order.
pub open spec fn store_after(
    m: Map<u64, ValueView>,
    ops: Seq<(Op, u64, Option<ValueView>)>,
) -> Map<u64, ValueView>
    decreases ops.len(),
{
    if ops.len() == 0 {
        m
    } else {
        let (op, key, val) = ops[0];
        let m2 = match (op, val) {
            (Op::Append, Some(v)) => m.insert(
                key,
                ValueView::List(
                    (if m.contains_key(key) {
                        m[key].elements()
                    } else {
                        Seq::<u64>::empty()
                    }) + v.elements(),
                ),
            ),
            _ => m,
        };
        store_after(m2, ops.drop_first())
    }
}

/// What one committed transaction observes and writes: the store moves from
/// the snapshot the batch read to exactly the whole-batch application of that
/// snapshot, appends keep their operands, and each read observes the snapshot
/// as transformed by precisely the appends that precede it in the batch.
pub proof fn lemma_txn_atomicity(
    m: Map<u64, ValueView>,
    ops: Seq<(Op, u64, Option<ValueView>)>,
    res: (Map<u64, ValueView>, Seq<(Op, u64, Option<ValueView>)>),
)
    requires
        run_ops(m, ops) == Some(res),
    ensures
        res.0 == store_after(m, ops),
        res.1.len() == ops.len(),
        forall|i: int|
            0 <= i < ops.len() ==> (#[trigger] res.1[i]).0 == ops[i].0 && res.1[i].1 == ops[i].1,
        forall|i: int|
            0 <= i < ops.len() && ops[i].0 == Op::Append ==> (#[trigger] res.1[i]).2 == ops[i].2,
        forall|i: int|
            0 <= i < ops.len() && ops[i].0 == Op::Read ==> (#[trigger] res.1[i]).2 == (
            if store_after(m, ops.take(i)).contains_key(ops[i].1) {
                Some(store_after(m, ops.take(i))[ops[i].1])
            } else {
                None
            }),
    decreases ops.len(),
{
    if ops.len() > 0 {
        let (op, key, val) = ops[0];
        let m2 = match (op, val) {
            (Op::Append, Some(v)) => m.insert(
                key,
                ValueView::List(
                    (if m.contains_key(key) {
                        m[key].elements()
                    } else {
                        Seq::<u64>::empty()
                    }) + v.elements(),
                ),
            ),
            _ => m,
        };
        match run_ops(m2, ops.drop_first()) {
            Some(p) => {
                lemma_txn_atomicity(m2, ops.drop_first(), p);
                let head = match op {
                    Op::Read => (
                        op,
                        key,
                        if m.contains_key(key) {
                            Some(m[key])
                        } else {
                            None
                        },
                    ),
                    Op::Append => (op, key, val),
                };
                assert(res.1 == seq![head] + p.1);
                assert(res.1[0] == head);
                assert(ops.take(0) =~= Seq::<(Op, u64, Option<ValueView>)>::empty());
                assert forall|i: int|
                    0 < i < ops.len() implies (#[trigger] res.1[i]) == p.1[i - 1] && ops[i]
                    == ops.drop_first()[i - 1] by {
                    assert(res.1[i] == (seq![head] + p.1)[i]);
                }
                assert forall|i: int|
                    0 < i < ops.len() && ops[i].0 == Op::Read implies (#[trigger] res.1[i]).2 == (
                if store_after(m, ops.take(i)).contains_key(ops[i].1) {
                    Some(store_after(m, ops.take(i))[ops[i].1])
                } else {
                    None
                }) by {
                    assert(ops.take(i)[0] == ops[0]);
                    assert(ops.take(i).drop_first() =~= ops.drop_first().take(i - 1));
                    assert(store_after(m, ops.take(i)) == store_after(
                        m2,
                        ops.drop_first().take(i - 1),
                    ));
                    assert(ops.drop_first()[i - 1] == ops[i]);
                }
            },
            None => {
                assert(run_ops(m, ops) is None);
            },
        }
    }
}

/// The numeric error code a transactional reply can carry.
#[derive(Clone, Copy, PartialEq, Eq, Structural, Debug)]
pub enum ServiceErrorCode {
    TxnConflict,
}

impl ServiceErrorCode {
    /// The code on the wire.
    pub fn code(&self) -> (r: u32)
        ensures
            *self == ServiceErrorCode::TxnConflict ==> r == 30,
    {
        match self {
            ServiceErrorCode::TxnConflict => 30,
        }
    }
}

/// A transactional request.
pub enum Request {
    Txn(Txn),
}

/// A transactional reply: the filled batch, or the conflict error.
pub enum Response {
    TxnOk(Txn),
    Error { code: ServiceErrorCode, text: String },
}

/// The reply sent once every commit attempt has lost its compare-and-swap.
pub fn conflict_response() -> (r: Response)
    ensures
        (r matches Response::Error { code, text } && code == ServiceErrorCode::TxnConflict && text@
            == "txn conflict"@),
{
    Response::Error { code: ServiceErrorCode::TxnConflict, text: "txn conflict".to_owned() }
}

/// How many times a transaction is attempted before it fails with a conflict.
pub const TXN_ATTEMPTS: u8 = 3;

/// One client transaction being executed against the linearizable store: the
/// original batch and the attempts that remain.
pub struct Datomic {
    txn: Txn,
    attempts_left: u8,
}

impl Datomic {
    /// The batch being executed.
    pub closed spec fn txn_spec(self) -> Txn {
        self.txn
    }

    /// How many attempts remain.
    pub closed spec fn attempts(self) -> u8 {
        self.attempts_left
    }

    /// Starts executing a batch, with the full attempt budget in hand.
    pub fn new(txn: Txn) -> (r: Self)
        ensures
            r.txn_spec() == txn,
            r.attempts() == TXN_ATTEMPTS,
    {
        Datomic { txn, attempts_left: TXN_ATTEMPTS }
    }

    /// Consumes one attempt. Once it returns false the batch has lost every
    /// attempt and the conflict error is the reply.
    pub fn begin_attempt(&mut self) -> (r: bool)
        ensures
            r == (old(self).attempts() > 0),
            final(self).txn_spec() == old(self).txn_spec(),
            r ==> final(self).attempts() == old(self).attempts() - 1,
            !r ==> *final(self) == *old(self),
    {
        if self.attempts_left == 0 {
            false
        } else {
            self.attempts_left = self.attempts_left - 1;
            true
        }
    }

    /// One attempt: applies the whole batch to the root snapshot read from
    /// the store (a missing root reads as the empty tree). The caller commits
    /// the new root with a compare-and-swap from that same snapshot, so the
    /// store only ever moves by whole-batch applications.
    pub fn execute(&self, root: &Tree) -> (r: Result<(Tree, Txn), Error>)
        requires
            root.wf(),
        ensures
            (match run_ops(root.as_map(), self.txn_spec()@) {
                Some(p) => r matches Ok(t) && t.0.wf() && t.0.as_map() == p.0 && t.1@ == p.1,
                None => r == Err::<(Tree, Txn), Error>(Error::MissingAppendValue),
            }),
    {
        apply_txn(root, &self.txn)
    }
}

} // verus!
