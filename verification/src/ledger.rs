//! The token ledger: balances of addresses, transfers between them, and the
//! hold-to-access rule.
use vstd::prelude::*;
use crate::text::{str_eq, str_starts_with, seq_starts_with};
use crate::digest::{keccak256, keccak256_spec, hex_encode, hex_text};
use crate::json::{JsonValue, JsonModel, object_model, obj_insert, jstr};

verus! {

/// Balances by address; each address listed at most once.
#[derive(Debug, Clone)]
pub struct Ledger {
    pub total_supply: u64,
    pub balances: Vec<(String, u64)>,
}

/// Each address occurs once.
pub open spec fn addresses_unique(s: Seq<(String, u64)>) -> bool {
    forall|i: int, j: int| 0 <= i < j < s.len() ==> (#[trigger] s[i]).0@ != (#[trigger] s[j]).0@
}

/// The balance held under an address; 0 for an address not listed.
pub open spec fn balance_in(s: Seq<(String, u64)>, a: Seq<char>) -> nat
    decreases s.len(),
{
    if s.len() == 0 {
        0
    } else if s.last().0@ == a {
        s.last().1 as nat
    } else {
        balance_in(s.drop_last(), a)
    }
}

/// The sum of all balances.
pub open spec fn total_held(s: Seq<(String, u64)>) -> nat
    decreases s.len(),
{
    if s.len() == 0 {
        0
    } else {
        total_held(s.drop_last()) + s.last().1 as nat
    }
}

impl Ledger {
    pub open spec fn wf(&self) -> bool {
        addresses_unique(self.balances@)
    }

    /// The balance of an address.
    pub open spec fn balance_spec(&self, a: Seq<char>) -> nat {
        balance_in(self.balances@, a)
    }

    /// The sum of all balances.
    pub open spec fn total_spec(&self) -> nat {
        total_held(self.balances@)
    }

    /// An empty ledger of the given supply.
    pub fn new(total_supply: u64) -> (r: Self)
        ensures
            r.wf(),
            r.total_supply == total_supply,
            r.balances@.len() == 0,
            forall|a: Seq<char>| r.balance_spec(a) == 0,
    {
        Ledger { total_supply, balances: Vec::new() }
    }
}

/// The balance of an address is the one its (only) entry holds.
proof fn lemma_balance_at(s: Seq<(String, u64)>, i: int)
    requires
        addresses_unique(s),
        0 <= i < s.len(),
    ensures
        balance_in(s, s[i].0@) == s[i].1 as nat,
    decreases s.len(),
{
    if i < s.len() - 1 {
        let t = s.drop_last();
        assert forall|a: int, b: int| 0 <= a < b < t.len() implies (#[trigger] t[a]).0@ != (#[trigger] t[b]).0@ by {
            assert(t[a] == s[a] && t[b] == s[b]);
        }
        lemma_balance_at(t, i);
        assert(s[s.len() - 1].0@ != s[i].0@);
    }
}

/// An address with no entry holds nothing.
proof fn lemma_balance_absent(s: Seq<(String, u64)>, a: Seq<char>)
    requires
        forall|j: int| 0 <= j < s.len() ==> (#[trigger] s[j]).0@ != a,
    ensures
        balance_in(s, a) == 0,
    decreases s.len(),
{
    if s.len() > 0 {
        lemma_balance_absent(s.drop_last(), a);
    }
}

/// Updating an entry changes that address's balance only, and the total by
/// the difference.
proof fn lemma_update_entry(s: Seq<(String, u64)>, i: int, v: u64)
    requires
        addresses_unique(s),
        0 <= i < s.len(),
    ensures
        addresses_unique(s.update(i, (s[i].0, v))),
        forall|a: Seq<char>| #[trigger] balance_in(s.update(i, (s[i].0, v)), a) == if a == s[i].0@ {
            v as nat
        } else {
            balance_in(s, a)
        },
        total_held(s.update(i, (s[i].0, v))) + s[i].1 == total_held(s) + v,
    decreases s.len(),
{
    let t = s.update(i, (s[i].0, v));
    assert forall|a: int, b: int| 0 <= a < b < t.len() implies (#[trigger] t[a]).0@ != (#[trigger] t[b]).0@ by {
        assert(s[a].0@ != s[b].0@);
    }
    if i == s.len() - 1 {
        assert(t.drop_last() =~= s.drop_last());
        assert forall|a: Seq<char>| #[trigger] balance_in(t, a) == if a == s[i].0@ {
            v as nat
        } else {
            balance_in(s, a)
        } by {}
    } else {
        let s2 = s.drop_last();
        assert forall|a: int, b: int| 0 <= a < b < s2.len() implies (#[trigger] s2[a]).0@ != (#[trigger] s2[b]).0@ by {
            assert(s2[a] == s[a] && s2[b] == s[b]);
        }
        lemma_update_entry(s2, i, v);
        assert(t.drop_last() =~= s2.update(i, (s2[i].0, v)));
        assert(s.last().0@ != s[i].0@);
        assert forall|a: Seq<char>| #[trigger] balance_in(t, a) == if a == s[i].0@ {
            v as nat
        } else {
            balance_in(s, a)
        } by {
            assert(balance_in(s2.update(i, (s2[i].0, v)), a) == if a == s2[i].0@ {
                v as nat
            } else {
                balance_in(s2, a)
            });
        }
    }
}

/// Position of the entry of an address.
fn find_address(balances: &Vec<(String, u64)>, address: &str) -> (r: Option<usize>)
    ensures
        match r {
            Some(i) => i < balances@.len() && balances@[i as int].0@ == address@,
            None => forall|j: int| 0 <= j < balances@.len() ==> (#[trigger] balances@[j]).0@ != address@,
        },
{
    let mut i: usize = 0;
    while i < balances.len()
        invariant
            i <= balances.len(),
            forall|j: int| 0 <= j < i ==> (#[trigger] balances@[j]).0@ != address@,
        decreases balances.len() - i,
    {
        if str_eq(balances[i].0.as_str(), address) {
            return Some(i);
        }
        i = i + 1;
    }
    None
}

impl Ledger {
    /// The balance of an address; 0 for one the ledger does not list.
    pub fn balance_of(&self, address: &str) -> (r: u64)
        requires
            self.wf(),
        ensures
            r as nat == self.balance_spec(address@),
    {
        match find_address(&self.balances, address) {
            Some(i) => {
                proof {
                    lemma_balance_at(self.balances@, i as int);
                }
                self.balances[i].1
            },
            None => {
                proof {
                    lemma_balance_absent(self.balances@, address@);
                }
                0
            },
        }
    }

    /// Sets the balance of an address, adding an entry where it has none.
    pub fn set_balance(&mut self, address: &str, amount: u64)
        requires
            old(self).wf(),
        ensures
            final(self).wf(),
            final(self).total_supply == old(self).total_supply,
            forall|a: Seq<char>| #[trigger] final(self).balance_spec(a) == if a == address@ {
                amount as nat
            } else {
                old(self).balance_spec(a)
            },
            final(self).total_spec() + old(self).balance_spec(address@) == old(self).total_spec() + amount,
    {
        match find_address(&self.balances, address) {
            Some(i) => {
                proof {
                    lemma_update_entry(self.balances@, i as int, amount);
                    lemma_balance_at(self.balances@, i as int);
                }
                let k = self.balances[i].0.clone();
                self.balances.set(i, (k, amount));
            },
            None => {
                let ghost before = self.balances@;
                proof {
                    lemma_balance_absent(before, address@);
                }
                self.balances.push((address.to_owned(), amount));
                proof {
                    let s = self.balances@;
                    assert(s.drop_last() =~= before);
                    assert forall|a: int, b: int| 0 <= a < b < s.len() implies (#[trigger] s[a]).0@ != (#[trigger] s[b]).0@ by {
                        if b == s.len() - 1 {
                            assert(s[a] == before[a]);
                        } else {
                            assert(s[a] == before[a] && s[b] == before[b]);
                        }
                    }
                }
            },
        }
    }
}

/// Why a transfer is refused.
#[derive(Debug, PartialEq, Eq)]
pub enum TransferError {
    /// The sender holds less than the amount: its balance and the amount.
    InsufficientBalance(u64, u64),
    /// Signatures are checked and the sender's is not well-formed.
    InvalidSignature,
}

/// What the ledger answers a transfer: the sender's and the receiver's new balances.
impl Ledger {
    /// Moves `amount` from `from` to `to`. Refused, the ledger unchanged, where
    /// the sender holds less than the amount, or (with signatures checked)
    /// where its signature is not well-formed. Otherwise the sender's balance
    /// falls and the receiver's rises by the amount (a transfer to oneself
    /// changes nothing) and no other balance changes. Only an accepted transfer
    /// must leave the receiver's balance within `u64`.
    pub fn transfer(
        &mut self,
        from: &str,
        to: &str,
        amount: u64,
        check_signature: bool,
        sig: &str,
    ) -> (r: Result<(u64, u64), TransferError>)
        requires
            old(self).wf(),
            old(self).balance_spec(from@) >= amount && (!check_signature || signature_well_formed(from@, sig@))
                && from@ != to@ ==> old(self).balance_spec(to@) + amount <= u64::MAX,
        ensures
            final(self).wf(),
            final(self).total_supply == old(self).total_supply,
            old(self).balance_spec(from@) < amount ==> (r matches Err(TransferError::InsufficientBalance(b, a))
                && b == old(self).balance_spec(from@) && a == amount),
            old(self).balance_spec(from@) >= amount && check_signature && !signature_well_formed(from@, sig@) ==> (r matches Err(TransferError::InvalidSignature)),
            r is Err ==> final(self).balances@ == old(self).balances@,
            old(self).balance_spec(from@) >= amount && (!check_signature || signature_well_formed(from@, sig@)) ==> r is Ok,
            r matches Ok((fb, tb)) ==> {
                &&& fb as nat == final(self).balance_spec(from@)
                &&& tb as nat == final(self).balance_spec(to@)
                &&& forall|a: Seq<char>| #[trigger] final(self).balance_spec(a) == if from@ == to@ {
                    old(self).balance_spec(a)
                } else if a == from@ {
                    (old(self).balance_spec(from@) - amount) as nat
                } else if a == to@ {
                    (old(self).balance_spec(to@) + amount) as nat
                } else {
                    old(self).balance_spec(a)
                }
                &&& final(self).total_spec() == old(self).total_spec()
            },
    {
        let sender = self.balance_of(from);
        if sender < amount {
            return Err(TransferError::InsufficientBalance(sender, amount));
        }
        if check_signature {
            let mut message = String::from_str("transfer ");
            message.append(from);
            message.append(" ");
            message.append(to);
            message.append(" ");
            message.append(crate::text::u64_decimal(amount).as_str());
            if !verify_wallet_signature(from, message.as_str(), sig) {
                return Err(TransferError::InvalidSignature);
            }
        }
        let ghost s0 = *self;
        self.set_balance(from, sender - amount);
        let ghost s1 = *self;
        let receiver = self.balance_of(to);
        self.set_balance(to, receiver + amount);
        let fb = self.balance_of(from);
        let tb = self.balance_of(to);
        Ok((fb, tb))
    }

    /// Gives the founder the whole supply where it holds nothing yet; reports
    /// whether it did.
    pub fn allocate_founder(&mut self, founder: &str, supply: u64) -> (r: bool)
        requires
            old(self).wf(),
        ensures
            final(self).wf(),
            r == (old(self).balance_spec(founder@) == 0),
            r ==> forall|a: Seq<char>| #[trigger] final(self).balance_spec(a) == if a == founder@ {
                supply as nat
            } else {
                old(self).balance_spec(a)
            },
            !r ==> *final(self) == *old(self),
    {
        if self.balance_of(founder) == 0 {
            self.set_balance(founder, supply);
            true
        } else {
            false
        }
    }
}

/// A signature passes the prototype check: an address of "0x" and 40 more
/// bytes, and a signature of at least 130 bytes.
pub open spec fn signature_well_formed(address: Seq<char>, sig: Seq<char>) -> bool {
    seq_starts_with(address, "0x"@) && vstd::utf8::encode_utf8(address).len() == 42
        && vstd::utf8::encode_utf8(sig).len() >= 130
}

/// The prototype signature check (`signature_well_formed`): the form of the
/// address and signature only, no recovery of a key; the message signed does
/// not enter the check.
pub fn verify_wallet_signature(address: &str, message: &str, sig_hex: &str) -> (r: bool)
    ensures
        r == signature_well_formed(address@, sig_hex@),
{
    if !str_starts_with(address, "0x") || address.as_bytes().len() != 42 {
        return false;
    }
    if sig_hex.as_bytes().len() < 130 {
        return false;
    }
    true
}

/// Holding at least the minimum gives access.
pub fn has_access(balance: u64, min_hold: u64) -> (r: bool)
    ensures
        r == (balance >= min_hold),
{
    balance >= min_hold
}

/// A test address derived from a seed: "0x" and the lowercase hexadecimal of
/// the first 20 bytes of the seed's Keccak-256 digest.
pub fn pseudo_address(seed: &str) -> (r: String)
    ensures
        r@ == "0x"@ + hex_text(keccak256_spec(vstd::utf8::encode_utf8(seed@)).take(20), false),
{
    let digest = keccak256(seed.as_bytes());
    let mut first: Vec<u8> = Vec::new();
    let mut i: usize = 0;
    while i < 20
        invariant
            digest@.len() == 32,
            i <= 20,
            first@ == digest@.take(i as int),
        decreases 20 - i,
    {
        first.push(digest[i]);
        i = i + 1;
        assert(first@ =~= digest@.take(i as int));
    }
    let mut r = "0x".to_owned();
    let h = hex_encode(first.as_slice());
    r.append(h.as_str());
    r
}

} // verus!

verus! {

// ── Holders ──

/// The holders of a positive balance, in ledger order.
pub open spec fn positive_holders(s: Seq<(String, u64)>) -> Seq<(Seq<char>, u64)>
    decreases s.len(),
{
    if s.len() == 0 {
        Seq::empty()
    } else if s.last().1 > 0 {
        positive_holders(s.drop_last()).push((s.last().0@, s.last().1))
    } else {
        positive_holders(s.drop_last())
    }
}

/// The holders are in order of decreasing balance.
pub open spec fn by_decreasing_balance(s: Seq<(Seq<char>, u64)>) -> bool {
    forall|i: int, j: int| 0 <= i < j < s.len() ==> (#[trigger] s[i]).1 >= (#[trigger] s[j]).1
}

/// The holders of the given balance, in order.
pub open spec fn with_balance(s: Seq<(Seq<char>, u64)>, v: u64) -> Seq<(Seq<char>, u64)>
    decreases s.len(),
{
    if s.len() == 0 {
        Seq::empty()
    } else if s.last().1 == v {
        with_balance(s.drop_last(), v).push(s.last())
    } else {
        with_balance(s.drop_last(), v)
    }
}

proof fn lemma_with_balance_add(a: Seq<(Seq<char>, u64)>, b: Seq<(Seq<char>, u64)>, v: u64)
    ensures
        with_balance(a + b, v) == with_balance(a, v) + with_balance(b, v),
    decreases b.len(),
{
    if b.len() == 0 {
        assert(a + b =~= a);
        assert(with_balance(a, v) + with_balance(b, v) =~= with_balance(a, v));
    } else {
        lemma_with_balance_add(a, b.drop_last(), v);
        assert((a + b).drop_last() =~= a + b.drop_last());
        assert((a + b).last() == b.last());
        assert(with_balance(a + b, v) =~= with_balance(a, v) + with_balance(b, v));
    }
}

proof fn lemma_with_balance_none(s: Seq<(Seq<char>, u64)>, v: u64)
    requires
        forall|j: int| 0 <= j < s.len() ==> (#[trigger] s[j]).1 != v,
    ensures
        with_balance(s, v) == Seq::<(Seq<char>, u64)>::empty(),
    decreases s.len(),
{
    if s.len() > 0 {
        lemma_with_balance_none(s.drop_last(), v);
    }
}

proof fn lemma_with_balance_one(x: (Seq<char>, u64), v: u64)
    ensures
        with_balance(seq![x], v) == (if x.1 == v { seq![x] } else { Seq::<(Seq<char>, u64)>::empty() }),
{
    assert(seq![x].drop_last() =~= Seq::<(Seq<char>, u64)>::empty());
    assert(with_balance(seq![x].drop_last(), v) == Seq::<(Seq<char>, u64)>::empty());
    assert(Seq::<(Seq<char>, u64)>::empty().push(x) =~= seq![x]);
}

/// The texts of a list of holders.
pub open spec fn holders_view(s: Seq<(String, u64)>) -> Seq<(Seq<char>, u64)> {
    s.map_values(|h: (String, u64)| (h.0@, h.1))
}

/// The holders of a positive balance, by decreasing balance; holders of equal
/// balances keep their ledger order.
pub fn holders_by_balance(ledger: &Ledger) -> (r: Vec<(String, u64)>)
    ensures
        by_decreasing_balance(holders_view(r@)),
        forall|v: u64| #[trigger] with_balance(holders_view(r@), v) == with_balance(positive_holders(ledger.balances@), v),
{
    let ghost all = positive_holders(ledger.balances@);
    let mut out: Vec<(String, u64)> = Vec::new();
    let mut i: usize = 0;
    proof {
        assert(ledger.balances@.take(0) =~= Seq::<(String, u64)>::empty());
        assert forall|v: u64| #[trigger] with_balance(positive_holders(ledger.balances@.take(0)), v) == with_balance(holders_view(out@), v) by {
            assert(holders_view(out@) =~= Seq::<(Seq<char>, u64)>::empty());
        }
    }
    while i < ledger.balances.len()
        invariant
            i <= ledger.balances.len(),
            by_decreasing_balance(holders_view(out@)),
            forall|v: u64| #[trigger] with_balance(positive_holders(ledger.balances@.take(i as int)), v) == with_balance(holders_view(out@), v),
        decreases ledger.balances.len() - i,
    {
        let ghost pre = ledger.balances@.take(i as int);
        assert(ledger.balances@.take(i + 1).drop_last() =~= pre);
        let bal = ledger.balances[i].1;
        if bal > 0 {
            let x = (ledger.balances[i].0.clone(), bal);
            let ghost xv = (x.0@, x.1);
            let mut k: usize = 0;
            while k < out.len() && out[k].1 >= bal
                invariant
                    k <= out.len(),
                    forall|j: int| 0 <= j < k ==> (#[trigger] out@[j]).1 >= bal,
                decreases out.len() - k,
            {
                k = k + 1;
            }
            let ghost before = holders_view(out@);
            proof {
                assert forall|j: int| k <= j < before.len() implies (#[trigger] before[j]).1 < bal by {
                    assert(before[k as int].1 < bal);
                    assert(before[k as int].1 >= before[j].1);
                }
            }
            out.insert(k, x);
            proof {
                let after = holders_view(out@);
                assert(after =~= before.take(k as int) + seq![xv] + before.skip(k as int));
                assert forall|a: int, b: int| 0 <= a < b < after.len() implies (#[trigger] after[a]).1 >= (#[trigger] after[b]).1 by {
                    if b < k {
                        assert(after[a] == before[a] && after[b] == before[b]);
                    } else if b == k {
                        assert(after[a] == before[a]);
                    } else if a < k {
                        assert(after[a] == before[a] && after[b] == before[b - 1]);
                    } else if a == k {
                        assert(after[b] == before[b - 1]);
                    } else {
                        assert(after[a] == before[a - 1] && after[b] == before[b - 1]);
                    }
                }
                assert(positive_holders(ledger.balances@.take(i + 1)) == positive_holders(pre).push(xv));
                assert forall|v: u64| #[trigger] with_balance(positive_holders(ledger.balances@.take(i + 1)), v) == with_balance(after, v) by {
                    lemma_with_balance_one(xv, v);
                    lemma_with_balance_add(positive_holders(pre), seq![xv], v);
                    assert(positive_holders(pre).push(xv) =~= positive_holders(pre) + seq![xv]);
                    lemma_with_balance_add(before.take(k as int) + seq![xv], before.skip(k as int), v);
                    lemma_with_balance_add(before.take(k as int), seq![xv], v);
                    lemma_with_balance_add(before.take(k as int), before.skip(k as int), v);
                    assert(before.take(k as int) + before.skip(k as int) =~= before);
                    if xv.1 == v {
                        assert forall|j: int| 0 <= j < before.skip(k as int).len() implies (#[trigger] before.skip(k as int)[j]).1 != v by {
                            assert(before.skip(k as int)[j] == before[k + j]);
                        }
                        lemma_with_balance_none(before.skip(k as int), v);
                    }
                    assert(with_balance(positive_holders(ledger.balances@.take(i + 1)), v) =~= with_balance(after, v));
                }
            }
        } else {
            assert(positive_holders(ledger.balances@.take(i + 1)) == positive_holders(pre));
        }
        i = i + 1;
    }
    assert(ledger.balances@.take(ledger.balances.len() as int) =~= ledger.balances@);
    out
}

/// The number of holders of a positive balance.
pub fn holder_count(ledger: &Ledger) -> (r: usize)
    ensures
        r == positive_holders(ledger.balances@).len(),
{
    let mut n: usize = 0;
    let mut i: usize = 0;
    while i < ledger.balances.len()
        invariant
            i <= ledger.balances.len(),
            n == positive_holders(ledger.balances@.take(i as int)).len(),
            n <= i,
        decreases ledger.balances.len() - i,
    {
        assert(ledger.balances@.take(i + 1).drop_last() =~= ledger.balances@.take(i as int));
        if ledger.balances[i].1 > 0 {
            n = n + 1;
        }
        i = i + 1;
    }
    assert(ledger.balances@.take(ledger.balances.len() as int) =~= ledger.balances@);
    n
}

/// An address as logs show it: as it is up to 12 bytes, else its first 10
/// bytes and "...".
pub open spec fn trunc_of(s: Seq<char>) -> Seq<char> {
    if vstd::utf8::encode_utf8(s).len() <= 12 {
        s
    } else {
        crate::describe::byte_prefix(s, 10) + "..."@
    }
}

/// An address as logs show it (`trunc_of`); one longer than 12 bytes must not
/// have a character across its 10th byte.
pub fn trunc(s: &str) -> (r: String)
    requires
        vstd::utf8::encode_utf8(s@).len() > 12 ==> vstd::utf8::is_char_boundary(vstd::utf8::encode_utf8(s@), 10),
    ensures
        r@ == trunc_of(s@),
{
    if s.as_bytes().len() <= 12 {
        String::from_str(s)
    } else {
        let mut r = crate::describe::cut_text(s, 10);
        r.append("...");
        r
    }
}

} // verus!

verus! {

// ── Answers of the token service ──

/// The address that holds burnt tokens.
pub open spec fn zero_address() -> Seq<char> {
    "0x0000000000000000000000000000000000000000"@
}

/// The supply's answer: total supply, symbol, decimals and the holding that
/// gives access.
pub open spec fn supply_answer(total_supply: u64, min_hold: u64) -> JsonModel {
    JsonModel::Object(
        Map::empty().insert("total_supply"@, JsonModel::Int(total_supply as int)).insert(
            "symbol"@,
            JsonModel::Str("CBORW"@),
        ).insert("decimals"@, JsonModel::Int(0)).insert("min_hold_for_access"@, JsonModel::Int(min_hold as int)),
    )
}

pub fn supply_json(ledger: &Ledger, min_hold: u64) -> (r: JsonValue)
    ensures
        r@ == supply_answer(ledger.total_supply, min_hold),
{
    let mut m: Vec<(String, JsonValue)> = Vec::new();
    obj_insert(&mut m, "total_supply", JsonValue::Int(ledger.total_supply as i128));
    obj_insert(&mut m, "symbol", jstr("CBORW"));
    obj_insert(&mut m, "decimals", JsonValue::Int(0));
    obj_insert(&mut m, "min_hold_for_access", JsonValue::Int(min_hold as i128));
    assert(object_model(Seq::<(String, JsonValue)>::empty()) =~= Map::<Seq<char>, JsonModel>::empty());
    JsonValue::Object(m)
}

/// The balance answer: address, balance and whether it gives access.
pub open spec fn balance_answer(address: Seq<char>, balance: nat, min_hold: u64) -> JsonModel {
    JsonModel::Object(
        Map::empty().insert("address"@, JsonModel::Str(address)).insert("balance"@, JsonModel::Int(balance as int)).insert(
            "has_access"@,
            JsonModel::Bool(balance >= min_hold),
        ),
    )
}

pub fn balance_json(ledger: &Ledger, address: &str, min_hold: u64) -> (r: JsonValue)
    requires
        ledger.wf(),
    ensures
        r@ == balance_answer(address@, ledger.balance_spec(address@), min_hold),
{
    let bal = ledger.balance_of(address);
    let mut m: Vec<(String, JsonValue)> = Vec::new();
    obj_insert(&mut m, "address", jstr(address));
    obj_insert(&mut m, "balance", JsonValue::Int(bal as i128));
    obj_insert(&mut m, "has_access", JsonValue::Bool(has_access(bal, min_hold)));
    assert(object_model(Seq::<(String, JsonValue)>::empty()) =~= Map::<Seq<char>, JsonModel>::empty());
    JsonValue::Object(m)
}

/// The access check's answer: 403 with an error where signatures are checked
/// and the address's is not well-formed, else 200 with the address, balance,
/// access and the holding that gives access.
pub open spec fn access_answer(
    address: Seq<char>,
    balance: nat,
    sig: Seq<char>,
    min_hold: u64,
    verify_signatures: bool,
) -> (u16, JsonModel) {
    if verify_signatures && !signature_well_formed(address, sig) {
        (
            403,
            JsonModel::Object(
                Map::empty().insert("error"@, JsonModel::Str("invalid signature"@)).insert(
                    "has_access"@,
                    JsonModel::Bool(false),
                ),
            ),
        )
    } else {
        (
            200,
            JsonModel::Object(
                Map::empty().insert("address"@, JsonModel::Str(address)).insert("balance"@, JsonModel::Int(balance as int)).insert(
                    "has_access"@,
                    JsonModel::Bool(balance >= min_hold),
                ).insert("min_hold"@, JsonModel::Int(min_hold as int)),
            ),
        )
    }
}

pub fn verify_access_json(
    ledger: &Ledger,
    address: &str,
    sig: &str,
    msg: &str,
    min_hold: u64,
    verify_signatures: bool,
) -> (r: (u16, JsonValue))
    requires
        ledger.wf(),
    ensures
        (r.0, r.1@) == access_answer(address@, ledger.balance_spec(address@), sig@, min_hold, verify_signatures),
{
    let bal = ledger.balance_of(address);
    assert(object_model(Seq::<(String, JsonValue)>::empty()) =~= Map::<Seq<char>, JsonModel>::empty());
    if verify_signatures {
        if !verify_wallet_signature(address, msg, sig) {
            let mut m: Vec<(String, JsonValue)> = Vec::new();
            obj_insert(&mut m, "error", jstr("invalid signature"));
            obj_insert(&mut m, "has_access", JsonValue::Bool(false));
            return (403, JsonValue::Object(m));
        }
    }
    let mut m: Vec<(String, JsonValue)> = Vec::new();
    obj_insert(&mut m, "address", jstr(address));
    obj_insert(&mut m, "balance", JsonValue::Int(bal as i128));
    obj_insert(&mut m, "has_access", JsonValue::Bool(has_access(bal, min_hold)));
    obj_insert(&mut m, "min_hold", JsonValue::Int(min_hold as i128));
    (200, JsonValue::Object(m))
}

/// The transfer's answer: 400 with the balance and the amount where the
/// sender holds too little, 403 where its signature is refused, else 200
/// with the new balances of sender and receiver.
pub open spec fn transfer_answer(r: Result<(u64, u64), TransferError>) -> (u16, JsonModel) {
    match r {
        Err(TransferError::InsufficientBalance(b, a)) => (
            400,
            JsonModel::Object(
                Map::empty().insert("error"@, JsonModel::Str("insufficient balance"@)).insert(
                    "balance"@,
                    JsonModel::Int(b as int),
                ).insert("required"@, JsonModel::Int(a as int)),
            ),
        ),
        Err(TransferError::InvalidSignature) => (
            403,
            JsonModel::Object(Map::empty().insert("error"@, JsonModel::Str("invalid signature"@))),
        ),
        Ok((fb, tb)) => (
            200,
            JsonModel::Object(
                Map::empty().insert("success"@, JsonModel::Bool(true)).insert("from_balance"@, JsonModel::Int(fb as int)).insert(
                    "to_balance"@,
                    JsonModel::Int(tb as int),
                ),
            ),
        ),
    }
}

/// The answer to a transfer's result (`transfer_answer`).
pub fn transfer_json(r: &Result<(u64, u64), TransferError>) -> (a: (u16, JsonValue))
    ensures
        (a.0, a.1@) == transfer_answer(*r),
{
    assert(object_model(Seq::<(String, JsonValue)>::empty()) =~= Map::<Seq<char>, JsonModel>::empty());
    let mut m: Vec<(String, JsonValue)> = Vec::new();
    match r {
        Err(TransferError::InsufficientBalance(b, a)) => {
            obj_insert(&mut m, "error", jstr("insufficient balance"));
            obj_insert(&mut m, "balance", JsonValue::Int(*b as i128));
            obj_insert(&mut m, "required", JsonValue::Int(*a as i128));
            (400, JsonValue::Object(m))
        },
        Err(TransferError::InvalidSignature) => {
            obj_insert(&mut m, "error", jstr("invalid signature"));
            (403, JsonValue::Object(m))
        },
        Ok((fb, tb)) => {
            obj_insert(&mut m, "success", JsonValue::Bool(true));
            obj_insert(&mut m, "from_balance", JsonValue::Int(*fb as i128));
            obj_insert(&mut m, "to_balance", JsonValue::Int(*tb as i128));
            (200, JsonValue::Object(m))
        },
    }
}

/// A holder as the answer lists it.
pub open spec fn holder_answer(h: (Seq<char>, u64)) -> JsonModel {
    JsonModel::Object(
        Map::empty().insert("address"@, JsonModel::Str(h.0)).insert("balance"@, JsonModel::Int(h.1 as int)),
    )
}

/// The holders' answer for holders listed by decreasing balance: their
/// number and the first 100 of them.
pub open spec fn holders_answer(ordered: Seq<(Seq<char>, u64)>, total: nat) -> JsonModel {
    JsonModel::Object(
        Map::empty().insert("total_holders"@, JsonModel::Int(total as int)).insert(
            "top"@,
            JsonModel::Array(
                ordered.take(if ordered.len() < 100 { ordered.len() as int } else { 100 }).map_values(
                    |h: (Seq<char>, u64)| holder_answer(h),
                ),
            ),
        ),
    )
}

/// The holders' answer: the holders of a positive balance by decreasing
/// balance (equal balances in ledger order), their number and the first 100.
pub fn holders_json(ledger: &Ledger) -> (r: JsonValue)
    ensures
        exists|ordered: Seq<(Seq<char>, u64)>|
            {
                &&& by_decreasing_balance(ordered)
                &&& forall|v: u64| #[trigger] with_balance(ordered, v) == with_balance(positive_holders(ledger.balances@), v)
                &&& r@ == holders_answer(ordered, positive_holders(ledger.balances@).len())
            },
{
    let hs = holders_by_balance(ledger);
    let ghost ordered = holders_view(hs@);
    let total = holder_count(ledger);
    let n: usize = if hs.len() < 100 { hs.len() } else { 100 };
    let mut top: Vec<JsonValue> = Vec::new();
    let mut i: usize = 0;
    assert(object_model(Seq::<(String, JsonValue)>::empty()) =~= Map::<Seq<char>, JsonModel>::empty());
    while i < n
        invariant
            i <= n <= hs.len(),
            ordered == holders_view(hs@),
            top.len() == i,
            object_model(Seq::<(String, JsonValue)>::empty()) == Map::<Seq<char>, JsonModel>::empty(),
            forall|j: int| 0 <= j < i ==> (#[trigger] top@[j])@ == holder_answer(ordered[j]),
        decreases n - i,
    {
        let mut m: Vec<(String, JsonValue)> = Vec::new();
        obj_insert(&mut m, "address", JsonValue::Str(hs[i].0.clone()));
        obj_insert(&mut m, "balance", JsonValue::Int(hs[i].1 as i128));
        top.push(JsonValue::Object(m));
        i = i + 1;
    }
    proof {
        crate::json::lemma_json_models(top@);
        assert(crate::json::json_models(top@) =~= ordered.take(n as int).map_values(|h: (Seq<char>, u64)| holder_answer(h)));
    }
    let mut m: Vec<(String, JsonValue)> = Vec::new();
    obj_insert(&mut m, "total_holders", JsonValue::Int(total as i128));
    obj_insert(&mut m, "top", JsonValue::Array(top));
    JsonValue::Object(m)
}

/// The statistics' answer: total supply, what circulates (the supply less
/// the zero address's balance, at least 0), the number of holders, symbol.
pub open spec fn stats_answer(total_supply: u64, zero_balance: nat, holders: nat) -> JsonModel {
    JsonModel::Object(
        Map::empty().insert("total_supply"@, JsonModel::Int(total_supply as int)).insert(
            "circulating"@,
            JsonModel::Int(if zero_balance <= total_supply { total_supply - zero_balance } else { 0 }),
        ).insert("holders"@, JsonModel::Int(holders as int)).insert("symbol"@, JsonModel::Str("CBORW"@)),
    )
}

pub fn stats_json(ledger: &Ledger) -> (r: JsonValue)
    requires
        ledger.wf(),
    ensures
        r@ == stats_answer(
            ledger.total_supply,
            ledger.balance_spec(zero_address()),
            positive_holders(ledger.balances@).len(),
        ),
{
    let zero = "0x0000000000000000000000000000000000000000";
    assert(zero@ == zero_address());
    let circulating = ledger.total_supply.saturating_sub(ledger.balance_of(zero));
    let holders = holder_count(ledger);
    let mut m: Vec<(String, JsonValue)> = Vec::new();
    obj_insert(&mut m, "total_supply", JsonValue::Int(ledger.total_supply as i128));
    obj_insert(&mut m, "circulating", JsonValue::Int(circulating as i128));
    obj_insert(&mut m, "holders", JsonValue::Int(holders as i128));
    obj_insert(&mut m, "symbol", jstr("CBORW"));
    assert(object_model(Seq::<(String, JsonValue)>::empty()) =~= Map::<Seq<char>, JsonModel>::empty());
    JsonValue::Object(m)
}

} // verus!
