use vstd::prelude::*;
use vstd::string::*;
use crate::interpreter::{ClarityInterpreter, balance_written, credited, debited};
use crate::representations::copy_string;

verus! {

broadcast use vstd::std_specs::vec::group_vec_axioms;

/// An event of a transaction that moves assets: STX, a fungible token or a non-fungible
/// token (named by its asset identifier), transferred, minted or burnt. Other events move
/// nothing.
pub enum AssetEvent {
    StxTransfer { sender: String, recipient: String, amount: u128 },
    StxMint { recipient: String, amount: u128 },
    StxBurn { sender: String, amount: u128 },
    FtTransfer { asset: String, sender: String, recipient: String, amount: u128 },
    FtMint { asset: String, recipient: String, amount: u128 },
    FtBurn { asset: String, sender: String, amount: u128 },
    NftTransfer { asset: String, sender: String, recipient: String },
    NftMint { asset: String, recipient: String },
    NftBurn { asset: String, sender: String },
    Other,
}

/// A change of a balance: the account, the token and the amount.
pub type BalanceChange = (Seq<char>, Seq<char>, u128);

/// The balances, by account and token.
pub type Balances = Map<(Seq<char>, Seq<char>), u128>;

/// What an event credits.
pub open spec fn event_credits(e: AssetEvent) -> Seq<BalanceChange> {
    match e {
        AssetEvent::StxTransfer { recipient, amount, .. } => seq![(recipient@, "STX"@, amount)],
        AssetEvent::StxMint { recipient, amount } => seq![(recipient@, "STX"@, amount)],
        AssetEvent::FtTransfer { asset, recipient, amount, .. } => seq![(recipient@, asset@, amount)],
        AssetEvent::FtMint { asset, recipient, amount } => seq![(recipient@, asset@, amount)],
        AssetEvent::NftTransfer { asset, recipient, .. } => seq![(recipient@, asset@, 1u128)],
        AssetEvent::NftMint { asset, recipient } => seq![(recipient@, asset@, 1u128)],
        _ => Seq::empty(),
    }
}

/// What an event debits.
pub open spec fn event_debits(e: AssetEvent) -> Seq<BalanceChange> {
    match e {
        AssetEvent::StxTransfer { sender, amount, .. } => seq![(sender@, "STX"@, amount)],
        AssetEvent::StxBurn { sender, amount } => seq![(sender@, "STX"@, amount)],
        AssetEvent::FtTransfer { asset, sender, amount, .. } => seq![(sender@, asset@, amount)],
        AssetEvent::FtBurn { asset, sender, amount } => seq![(sender@, asset@, amount)],
        AssetEvent::NftTransfer { asset, sender, .. } => seq![(sender@, asset@, 1u128)],
        AssetEvent::NftBurn { asset, sender } => seq![(sender@, asset@, 1u128)],
        _ => Seq::empty(),
    }
}

/// The credits of the events, in order.
pub open spec fn credits_of(events: Seq<AssetEvent>) -> Seq<BalanceChange>
    decreases events.len(),
{
    if events.len() == 0 {
        Seq::empty()
    } else {
        credits_of(events.drop_last()) + event_credits(events.last())
    }
}

/// The debits of the events, in order.
pub open spec fn debits_of(events: Seq<AssetEvent>) -> Seq<BalanceChange>
    decreases events.len(),
{
    if events.len() == 0 {
        Seq::empty()
    } else {
        debits_of(events.drop_last()) + event_debits(events.last())
    }
}

/// The balance recorded for `k`, if any.
pub open spec fn recorded(m: Balances, k: (Seq<char>, Seq<char>)) -> Option<u128> {
    if m.contains_key(k) {
        Some(m[k])
    } else {
        None
    }
}

/// The balances after the changes `ops`, each a credit (`credit`) or a debit: `None` where
/// a credit goes over the largest balance or a debit below zero.
pub open spec fn after_changes(m: Balances, ops: Seq<BalanceChange>, credit: bool) -> Option<Balances>
    decreases ops.len(),
{
    if ops.len() == 0 {
        Some(m)
    } else {
        match after_changes(m, ops.drop_last(), credit) {
            None => None,
            Some(m2) => {
                let op = ops.last();
                let k = (op.0, op.1);
                let v = if credit {
                    credited(recorded(m2, k), op.2)
                } else {
                    debited(recorded(m2, k), op.2)
                };
                if 0 <= v <= u128::MAX {
                    Some(m2.insert(k, v as u128))
                } else {
                    None
                }
            },
        }
    }
}

/// The balances after the events: every credit first, then every debit, each in the order
/// of the events.
pub open spec fn after_events(m: Balances, events: Seq<AssetEvent>) -> Option<Balances> {
    match after_changes(m, credits_of(events), true) {
        None => None,
        Some(m2) => after_changes(m2, debits_of(events), false),
    }
}

/// The balances that the interpreter records.
pub open spec fn balances_of(i: ClarityInterpreter) -> Balances {
    Map::new(
        |k: (Seq<char>, Seq<char>)| i.has_balance(k.0, k.1),
        |k: (Seq<char>, Seq<char>)| i.balance_spec(k.0, k.1),
    )
}

/// The accounts and the tokens that the changes `ops` touch.
pub open spec fn touched(ops: Seq<BalanceChange>) -> (Set<Seq<char>>, Set<Seq<char>>)
    decreases ops.len(),
{
    if ops.len() == 0 {
        (Set::empty(), Set::empty())
    } else {
        let (a, t) = touched(ops.drop_last());
        (a.insert(ops.last().0), t.insert(ops.last().1))
    }
}

proof fn lemma_prefix_fits(m: Balances, ops: Seq<BalanceChange>, credit: bool, i: int)
    requires
        0 <= i <= ops.len(),
        after_changes(m, ops, credit) is Some,
    ensures
        after_changes(m, ops.take(i), credit) is Some,
    decreases ops.len() - i,
{
    if i < ops.len() {
        lemma_prefix_fits(m, ops.drop_last(), credit, i);
        assert(ops.drop_last().take(i) =~= ops.take(i));
    } else {
        assert(ops.take(i) =~= ops);
    }
}

fn event_changes(e: &AssetEvent) -> (r: (Vec<(String, String, u128)>, Vec<(String, String, u128)>))
    ensures
        changes_view(r.0@) == event_credits(*e),
        changes_view(r.1@) == event_debits(*e),
{
    let mut credits: Vec<(String, String, u128)> = Vec::new();
    let mut debits: Vec<(String, String, u128)> = Vec::new();
    match e {
        AssetEvent::StxTransfer { sender, recipient, amount } => {
            credits.push((copy_string(recipient), String::from_str("STX"), *amount));
            debits.push((copy_string(sender), String::from_str("STX"), *amount));
        },
        AssetEvent::StxMint { recipient, amount } => {
            credits.push((copy_string(recipient), String::from_str("STX"), *amount));
        },
        AssetEvent::StxBurn { sender, amount } => {
            debits.push((copy_string(sender), String::from_str("STX"), *amount));
        },
        AssetEvent::FtTransfer { asset, sender, recipient, amount } => {
            credits.push((copy_string(recipient), copy_string(asset), *amount));
            debits.push((copy_string(sender), copy_string(asset), *amount));
        },
        AssetEvent::FtMint { asset, recipient, amount } => {
            credits.push((copy_string(recipient), copy_string(asset), *amount));
        },
        AssetEvent::FtBurn { asset, sender, amount } => {
            debits.push((copy_string(sender), copy_string(asset), *amount));
        },
        AssetEvent::NftTransfer { asset, sender, recipient } => {
            credits.push((copy_string(recipient), copy_string(asset), 1));
            debits.push((copy_string(sender), copy_string(asset), 1));
        },
        AssetEvent::NftMint { asset, recipient } => {
            credits.push((copy_string(recipient), copy_string(asset), 1));
        },
        AssetEvent::NftBurn { asset, sender } => {
            debits.push((copy_string(sender), copy_string(asset), 1));
        },
        AssetEvent::Other => {},
    }
    proof {
        assert(changes_view(credits@) =~= event_credits(*e));
        assert(changes_view(debits@) =~= event_debits(*e));
    }
    (credits, debits)
}

/// Changes of balances as plain values.
pub open spec fn changes_view(v: Seq<(String, String, u128)>) -> Seq<BalanceChange> {
    v.map_values(|c: (String, String, u128)| (c.0@, c.1@, c.2))
}

impl ClarityInterpreter {
    /// Applies the changes `ops` in order, each a credit (`credit`) or a debit.
    fn apply_changes(&mut self, ops: &Vec<(String, String, u128)>, credit: bool)
        requires
            after_changes(balances_of(*old(self)), changes_view(ops@), credit) is Some,
        ensures
            balances_of(*final(self)) == after_changes(balances_of(*old(self)), changes_view(ops@), credit)->0,
            final(self).accounts_spec() == old(self).accounts_spec().union(touched(changes_view(ops@)).0),
            final(self).tokens_spec() == old(self).tokens_spec().union(touched(changes_view(ops@)).1),
            final(self).tx_sender_spec() == old(self).tx_sender_spec(),
            final(self).block_height_spec() == old(self).block_height_spec(),
            final(self).analysis_spec() == old(self).analysis_spec(),
    {
        let ghost m0 = balances_of(*self);
        let ghost cv = changes_view(ops@);
        let mut i: usize = 0;
        proof {
            assert(cv.take(0) =~= Seq::<BalanceChange>::empty());
            assert(self.accounts_spec().union(Set::empty()) =~= self.accounts_spec());
            assert(self.tokens_spec().union(Set::empty()) =~= self.tokens_spec());
        }
        while i < ops.len()
            invariant
                i <= ops@.len(),
                cv == changes_view(ops@),
                m0 == balances_of(*old(self)),
                after_changes(m0, cv, credit) is Some,
                after_changes(m0, cv.take(i as int), credit) == Some(balances_of(*self)),
                self.accounts_spec() == old(self).accounts_spec().union(touched(cv.take(i as int)).0),
                self.tokens_spec() == old(self).tokens_spec().union(touched(cv.take(i as int)).1),
                self.tx_sender_spec() == old(self).tx_sender_spec(),
                self.block_height_spec() == old(self).block_height_spec(),
                self.analysis_spec() == old(self).analysis_spec(),
            decreases ops.len() - i,
        {
            let ghost before = *self;
            let ghost u = cv.take(i + 1);
            let ghost k = (ops@[i as int].0@, ops@[i as int].1@);
            proof {
                lemma_prefix_fits(m0, cv, credit, i + 1);
                assert(u.drop_last() =~= cv.take(i as int));
                assert(u.last() == cv[i as int]);
                assert(recorded(balances_of(before), k) == if before.has_balance(k.0, k.1) {
                    Some(before.balance_spec(k.0, k.1))
                } else {
                    None::<u128>
                });
            }
            let account = ops[i].0.as_str();
            let token = ops[i].1.as_str();
            if credit {
                self.credit_token(account, token, ops[i].2);
            } else {
                self.debit_token(account, token, ops[i].2);
            }
            proof {
                let v = if credit {
                    credited(recorded(balances_of(before), k), cv[i as int].2)
                } else {
                    debited(recorded(balances_of(before), k), cv[i as int].2)
                };
                assert(balance_written(before, *self, k.0, k.1, v as u128));
                assert(balances_of(*self) =~= balances_of(before).insert(k, v as u128)) by {
                    assert forall|x: (Seq<char>, Seq<char>)| #[trigger] balances_of(*self).contains_key(x) == balances_of(
                        before,
                    ).insert(k, v as u128).contains_key(x) by {
                        if x != k {
                            assert(self.balance_spec(x.0, x.1) == before.balance_spec(x.0, x.1));
                        }
                    }
                    assert forall|x: (Seq<char>, Seq<char>)| #[trigger] balances_of(*self).contains_key(x) implies balances_of(
                        *self,
                    )[x] == balances_of(before).insert(k, v as u128)[x] by {
                        if x != k {
                            assert(self.balance_spec(x.0, x.1) == before.balance_spec(x.0, x.1));
                        }
                    }
                }
                assert(touched(u).0 =~= touched(cv.take(i as int)).0.insert(k.0));
                assert(touched(u).1 =~= touched(cv.take(i as int)).1.insert(k.1));
                assert(self.accounts_spec() =~= old(self).accounts_spec().union(touched(u).0));
                assert(self.tokens_spec() =~= old(self).tokens_spec().union(touched(u).1));
            }
            i = i + 1;
        }
        proof {
            assert(cv.take(i as int) =~= cv);
        }
    }

    /// Records what the events of a transaction moved: every credit first, then every
    /// debit, each in the order of the events. A debit of an account without a balance
    /// records the amount debited.
    pub fn apply_asset_events(&mut self, events: &Vec<AssetEvent>)
        requires
            after_events(balances_of(*old(self)), events@) is Some,
        ensures
            balances_of(*final(self)) == after_events(balances_of(*old(self)), events@)->0,
            final(self).accounts_spec() == old(self).accounts_spec().union(touched(credits_of(events@)).0).union(
                touched(debits_of(events@)).0,
            ),
            final(self).tokens_spec() == old(self).tokens_spec().union(touched(credits_of(events@)).1).union(
                touched(debits_of(events@)).1,
            ),
            final(self).tx_sender_spec() == old(self).tx_sender_spec(),
            final(self).block_height_spec() == old(self).block_height_spec(),
            final(self).analysis_spec() == old(self).analysis_spec(),
    {
        let mut credits: Vec<(String, String, u128)> = Vec::new();
        let mut debits: Vec<(String, String, u128)> = Vec::new();
        let mut i: usize = 0;
        proof {
            assert(events@.take(0) =~= Seq::<AssetEvent>::empty());
            assert(changes_view(credits@) =~= Seq::<BalanceChange>::empty());
            assert(changes_view(debits@) =~= Seq::<BalanceChange>::empty());
        }
        while i < events.len()
            invariant
                i <= events@.len(),
                changes_view(credits@) == credits_of(events@.take(i as int)),
                changes_view(debits@) == debits_of(events@.take(i as int)),
            decreases events.len() - i,
        {
            let ghost u = events@.take(i + 1);
            proof {
                assert(u.drop_last() =~= events@.take(i as int));
                assert(u.last() == events@[i as int]);
            }
            let (mut c, mut d) = event_changes(&events[i]);
            let ghost c0 = changes_view(credits@);
            let ghost d0 = changes_view(debits@);
            let ghost cc = changes_view(c@);
            let ghost dd = changes_view(d@);
            credits.append(&mut c);
            debits.append(&mut d);
            proof {
                assert(changes_view(credits@) =~= c0 + cc);
                assert(changes_view(debits@) =~= d0 + dd);
            }
            i = i + 1;
        }
        proof {
            assert(events@.take(i as int) =~= events@);
        }
        self.apply_changes(&credits, true);
        self.apply_changes(&debits, false);
    }
}


/// Burning what a mint of a fungible token gave an account gives back the balances as they
/// were, where the account had a balance of that token.
pub proof fn burn_undoes_mint(m: Balances, mint: AssetEvent, burn: AssetEvent)
    requires
        ({
            &&& mint matches AssetEvent::FtMint { asset: a1, recipient, amount: v1 }
            &&& burn matches AssetEvent::FtBurn { asset: a2, sender, amount: v2 }
            &&& a1@ == a2@
            &&& recipient@ == sender@
            &&& v1 == v2
            &&& m.contains_key((recipient@, a1@))
            &&& m[(recipient@, a1@)] + v1 <= u128::MAX
        }),
    ensures
        after_events(m, seq![mint, burn]) == Some(m),
{
    let events = seq![mint, burn];
    assert(events.drop_last() =~= seq![mint]);
    assert(seq![mint].drop_last() =~= Seq::<AssetEvent>::empty());
    assert(events.last() == burn);
    assert(seq![mint].last() == mint);
    assert(credits_of(Seq::<AssetEvent>::empty()) == Seq::<BalanceChange>::empty());
    assert(credits_of(seq![mint]) =~= event_credits(mint));
    assert(debits_of(Seq::<AssetEvent>::empty()) == Seq::<BalanceChange>::empty());
    assert(event_debits(mint) =~= Seq::<BalanceChange>::empty());
    assert(debits_of(seq![mint]) =~= Seq::<BalanceChange>::empty());
    assert(event_credits(burn) =~= Seq::<BalanceChange>::empty());
    let c = credits_of(events);
    let d = debits_of(events);
    assert(c =~= event_credits(mint));
    assert(d =~= event_debits(burn));
    let k = (c[0].0, c[0].1);
    assert(c.drop_last() =~= Seq::<BalanceChange>::empty());
    assert(d.drop_last() =~= Seq::<BalanceChange>::empty());
    assert(c.len() == 1 && d.len() == 1);
    assert(c.last() == c[0]);
    assert(d.last() == d[0]);
    assert(m.contains_key(k));
    assert(recorded(m, k) == Some(m[k]));
    assert(m[k] + c[0].2 <= u128::MAX);
    assert(after_changes(m, c.drop_last(), true) == Some(m));
    let m1 = m.insert(k, (m[k] + c[0].2) as u128);
    assert(after_changes(m, c, true) == Some(m1));
    assert((d[0].0, d[0].1) == k);
    assert(recorded(m1, k) == Some(m1[k]));
    assert(after_changes(m1, d.drop_last(), false) == Some(m1));
    assert(m1.insert(k, (m1[k] - d[0].2) as u128) =~= m);
}


/// One credit of `amount` to `r` and one debit of it from `s`, two recorded balances with
/// room for it, move the amount from `s` to `r` and change nothing else.
proof fn lemma_moves(m: Balances, e: AssetEvent, s: (Seq<char>, Seq<char>), r: (Seq<char>, Seq<char>), amount: u128)
    requires
        event_credits(e) == seq![(r.0, r.1, amount)],
        event_debits(e) == seq![(s.0, s.1, amount)],
        s != r,
        m.contains_key(s),
        m.contains_key(r),
        m[s] >= amount,
        m[r] + amount <= u128::MAX,
    ensures
        after_events(m, seq![e]) matches Some(m2) && {
            &&& m2[s] == m[s] - amount
            &&& m2[r] == m[r] + amount
            &&& m2.dom() == m.dom()
            &&& forall|k: (Seq<char>, Seq<char>)| k != s && k != r && #[trigger] m.contains_key(k) ==> m2[k] == m[k]
        },
{
    let events = seq![e];
    assert(events.drop_last() =~= Seq::<AssetEvent>::empty());
    assert(events.last() == e);
    assert(credits_of(Seq::<AssetEvent>::empty()) == Seq::<BalanceChange>::empty());
    assert(debits_of(Seq::<AssetEvent>::empty()) == Seq::<BalanceChange>::empty());
    let c = credits_of(events);
    let d = debits_of(events);
    assert(c =~= event_credits(e));
    assert(d =~= event_debits(e));
    assert(c.len() == 1 && c.last() == c[0] && c.drop_last() =~= Seq::<BalanceChange>::empty());
    assert(d.len() == 1 && d.last() == d[0] && d.drop_last() =~= Seq::<BalanceChange>::empty());
    assert((c[0].0, c[0].1) == r);
    assert((d[0].0, d[0].1) == s);
    assert(after_changes(m, c.drop_last(), true) == Some(m));
    assert(recorded(m, r) == Some(m[r]));
    let m1 = m.insert(r, (m[r] + amount) as u128);
    assert(after_changes(m, c, true) == Some(m1));
    assert(after_changes(m1, d.drop_last(), false) == Some(m1));
    assert(recorded(m1, s) == Some(m1[s]));
    let m2 = m1.insert(s, (m1[s] - amount) as u128);
    assert(after_changes(m1, d, false) == Some(m2));
    assert(after_events(m, events) == Some(m2));
    assert(m2.dom() =~= m.dom());
}

/// A transfer of STX moves the amount from the sender to the recipient: where the sender
/// holds at least the amount and the recipient has room for it, the sender's balance falls
/// by the amount, the recipient's rises by it, and nothing else changes.
pub proof fn stx_transfer_moves_amount(m: Balances, e: AssetEvent)
    requires
        e matches AssetEvent::StxTransfer { sender, recipient, amount } && {
            &&& sender@ != recipient@
            &&& m.contains_key((sender@, "STX"@))
            &&& m.contains_key((recipient@, "STX"@))
            &&& m[(sender@, "STX"@)] >= amount
            &&& m[(recipient@, "STX"@)] + amount <= u128::MAX
        },
    ensures
        e matches AssetEvent::StxTransfer { sender, recipient, amount } && {
            let s = (sender@, "STX"@);
            let r = (recipient@, "STX"@);
            &&& after_events(m, seq![e]) matches Some(m2)
            &&& m2[s] == m[s] - amount
            &&& m2[r] == m[r] + amount
            &&& m2.dom() == m.dom()
            &&& forall|k: (Seq<char>, Seq<char>)| k != s && k != r && #[trigger] m.contains_key(k) ==> m2[k] == m[k]
        },
{
    if let AssetEvent::StxTransfer { sender, recipient, amount } = e {
        let s = (sender@, "STX"@);
        let r = (recipient@, "STX"@);
        assert(event_credits(e) =~= seq![(r.0, r.1, amount)]);
        assert(event_debits(e) =~= seq![(s.0, s.1, amount)]);
        lemma_moves(m, e, s, r, amount);
    }
}

/// A transfer of a fungible token moves the amount of that token from the sender to the
/// recipient, as a transfer of STX does.
pub proof fn ft_transfer_moves_amount(m: Balances, e: AssetEvent)
    requires
        e matches AssetEvent::FtTransfer { asset, sender, recipient, amount } && {
            &&& sender@ != recipient@
            &&& m.contains_key((sender@, asset@))
            &&& m.contains_key((recipient@, asset@))
            &&& m[(sender@, asset@)] >= amount
            &&& m[(recipient@, asset@)] + amount <= u128::MAX
        },
    ensures
        e matches AssetEvent::FtTransfer { asset, sender, recipient, amount } && {
            let s = (sender@, asset@);
            let r = (recipient@, asset@);
            &&& after_events(m, seq![e]) matches Some(m2)
            &&& m2[s] == m[s] - amount
            &&& m2[r] == m[r] + amount
            &&& m2.dom() == m.dom()
            &&& forall|k: (Seq<char>, Seq<char>)| k != s && k != r && #[trigger] m.contains_key(k) ==> m2[k] == m[k]
        },
{
    if let AssetEvent::FtTransfer { asset, sender, recipient, amount } = e {
        let s = (sender@, asset@);
        let r = (recipient@, asset@);
        assert(event_credits(e) =~= seq![(r.0, r.1, amount)]);
        assert(event_debits(e) =~= seq![(s.0, s.1, amount)]);
        lemma_moves(m, e, s, r, amount);
    }
}

/// A transfer of a non-fungible token moves one unit of it from the sender to the
/// recipient.
pub proof fn nft_transfer_moves_one(m: Balances, e: AssetEvent)
    requires
        e matches AssetEvent::NftTransfer { asset, sender, recipient } && {
            &&& sender@ != recipient@
            &&& m.contains_key((sender@, asset@))
            &&& m.contains_key((recipient@, asset@))
            &&& m[(sender@, asset@)] >= 1
            &&& m[(recipient@, asset@)] + 1 <= u128::MAX
        },
    ensures
        e matches AssetEvent::NftTransfer { asset, sender, recipient } && {
            let s = (sender@, asset@);
            let r = (recipient@, asset@);
            &&& after_events(m, seq![e]) matches Some(m2)
            &&& m2[s] == m[s] - 1
            &&& m2[r] == m[r] + 1
            &&& m2.dom() == m.dom()
            &&& forall|k: (Seq<char>, Seq<char>)| k != s && k != r && #[trigger] m.contains_key(k) ==> m2[k] == m[k]
        },
{
    if let AssetEvent::NftTransfer { asset, sender, recipient } = e {
        let s = (sender@, asset@);
        let r = (recipient@, asset@);
        assert(event_credits(e) =~= seq![(r.0, r.1, 1u128)]);
        assert(event_debits(e) =~= seq![(s.0, s.1, 1u128)]);
        lemma_moves(m, e, s, r, 1u128);
    }
}


/// One credit of `amount` to a recorded balance `r` with room for it, and nothing debited,
/// raise that balance by the amount and change nothing else.
proof fn lemma_credits_one(m: Balances, e: AssetEvent, r: (Seq<char>, Seq<char>), amount: u128)
    requires
        event_credits(e) == seq![(r.0, r.1, amount)],
        event_debits(e) == Seq::<BalanceChange>::empty(),
        m.contains_key(r),
        m[r] + amount <= u128::MAX,
    ensures
        after_events(m, seq![e]) == Some(m.insert(r, (m[r] + amount) as u128)),
{
    let events = seq![e];
    assert(events.drop_last() =~= Seq::<AssetEvent>::empty());
    assert(events.last() == e);
    assert(credits_of(Seq::<AssetEvent>::empty()) == Seq::<BalanceChange>::empty());
    assert(debits_of(Seq::<AssetEvent>::empty()) == Seq::<BalanceChange>::empty());
    let c = credits_of(events);
    let d = debits_of(events);
    assert(c =~= event_credits(e));
    assert(d =~= Seq::<BalanceChange>::empty());
    assert(c.len() == 1 && c.last() == c[0] && c.drop_last() =~= Seq::<BalanceChange>::empty());
    assert(after_changes(m, c.drop_last(), true) == Some(m));
    assert(recorded(m, r) == Some(m[r]));
    let m1 = m.insert(r, (m[r] + amount) as u128);
    assert(after_changes(m, c, true) == Some(m1));
    assert(after_changes(m1, d, false) == Some(m1));
}

/// One debit of `amount` from a recorded balance `s` that holds it, and nothing credited,
/// lower that balance by the amount and change nothing else.
proof fn lemma_debits_one(m: Balances, e: AssetEvent, s: (Seq<char>, Seq<char>), amount: u128)
    requires
        event_credits(e) == Seq::<BalanceChange>::empty(),
        event_debits(e) == seq![(s.0, s.1, amount)],
        m.contains_key(s),
        m[s] >= amount,
    ensures
        after_events(m, seq![e]) == Some(m.insert(s, (m[s] - amount) as u128)),
{
    let events = seq![e];
    assert(events.drop_last() =~= Seq::<AssetEvent>::empty());
    assert(events.last() == e);
    assert(credits_of(Seq::<AssetEvent>::empty()) == Seq::<BalanceChange>::empty());
    assert(debits_of(Seq::<AssetEvent>::empty()) == Seq::<BalanceChange>::empty());
    let c = credits_of(events);
    let d = debits_of(events);
    assert(c =~= Seq::<BalanceChange>::empty());
    assert(d =~= event_debits(e));
    assert(d.len() == 1 && d.last() == d[0] && d.drop_last() =~= Seq::<BalanceChange>::empty());
    assert(after_changes(m, c, true) == Some(m));
    assert(after_changes(m, d.drop_last(), false) == Some(m));
    assert(recorded(m, s) == Some(m[s]));
}

/// A mint raises the recipient's balance of what it mints (STX, a fungible token by the
/// amount, a non-fungible token by one) and changes nothing else.
pub proof fn mint_credits_recipient(m: Balances, e: AssetEvent)
    requires
        match e {
            AssetEvent::StxMint { recipient, amount } => m.contains_key((recipient@, "STX"@)) && m[(recipient@, "STX"@)] + amount <= u128::MAX,
            AssetEvent::FtMint { asset, recipient, amount } => m.contains_key((recipient@, asset@)) && m[(recipient@, asset@)] + amount <= u128::MAX,
            AssetEvent::NftMint { asset, recipient } => m.contains_key((recipient@, asset@)) && m[(recipient@, asset@)] + 1 <= u128::MAX,
            _ => false,
        },
    ensures
        match e {
            AssetEvent::StxMint { recipient, amount } => after_events(m, seq![e]) == Some(
                m.insert((recipient@, "STX"@), (m[(recipient@, "STX"@)] + amount) as u128),
            ),
            AssetEvent::FtMint { asset, recipient, amount } => after_events(m, seq![e]) == Some(
                m.insert((recipient@, asset@), (m[(recipient@, asset@)] + amount) as u128),
            ),
            AssetEvent::NftMint { asset, recipient } => after_events(m, seq![e]) == Some(
                m.insert((recipient@, asset@), (m[(recipient@, asset@)] + 1) as u128),
            ),
            _ => false,
        },
{
    match e {
        AssetEvent::StxMint { recipient, amount } => {
            assert(event_credits(e) =~= seq![(recipient@, "STX"@, amount)]);
            lemma_credits_one(m, e, (recipient@, "STX"@), amount);
        },
        AssetEvent::FtMint { asset, recipient, amount } => {
            assert(event_credits(e) =~= seq![(recipient@, asset@, amount)]);
            lemma_credits_one(m, e, (recipient@, asset@), amount);
        },
        AssetEvent::NftMint { asset, recipient } => {
            assert(event_credits(e) =~= seq![(recipient@, asset@, 1u128)]);
            lemma_credits_one(m, e, (recipient@, asset@), 1u128);
        },
        _ => {},
    }
}

/// A burn lowers the sender's balance of what it burns (STX, a fungible token by the
/// amount, a non-fungible token by one) and changes nothing else.
pub proof fn burn_debits_sender(m: Balances, e: AssetEvent)
    requires
        match e {
            AssetEvent::StxBurn { sender, amount } => m.contains_key((sender@, "STX"@)) && m[(sender@, "STX"@)] >= amount,
            AssetEvent::FtBurn { asset, sender, amount } => m.contains_key((sender@, asset@)) && m[(sender@, asset@)] >= amount,
            AssetEvent::NftBurn { asset, sender } => m.contains_key((sender@, asset@)) && m[(sender@, asset@)] >= 1,
            _ => false,
        },
    ensures
        match e {
            AssetEvent::StxBurn { sender, amount } => after_events(m, seq![e]) == Some(
                m.insert((sender@, "STX"@), (m[(sender@, "STX"@)] - amount) as u128),
            ),
            AssetEvent::FtBurn { asset, sender, amount } => after_events(m, seq![e]) == Some(
                m.insert((sender@, asset@), (m[(sender@, asset@)] - amount) as u128),
            ),
            AssetEvent::NftBurn { asset, sender } => after_events(m, seq![e]) == Some(
                m.insert((sender@, asset@), (m[(sender@, asset@)] - 1) as u128),
            ),
            _ => false,
        },
{
    match e {
        AssetEvent::StxBurn { sender, amount } => {
            assert(event_debits(e) =~= seq![(sender@, "STX"@, amount)]);
            lemma_debits_one(m, e, (sender@, "STX"@), amount);
        },
        AssetEvent::FtBurn { asset, sender, amount } => {
            assert(event_debits(e) =~= seq![(sender@, asset@, amount)]);
            lemma_debits_one(m, e, (sender@, asset@), amount);
        },
        AssetEvent::NftBurn { asset, sender } => {
            assert(event_debits(e) =~= seq![(sender@, asset@, 1u128)]);
            lemma_debits_one(m, e, (sender@, asset@), 1u128);
        },
        _ => {},
    }
}

/// An event that moves no asset changes no balance.
pub proof fn other_event_changes_nothing(m: Balances)
    ensures
        after_events(m, seq![AssetEvent::Other]) == Some(m),
{
    let events = seq![AssetEvent::Other];
    assert(events.drop_last() =~= Seq::<AssetEvent>::empty());
    assert(credits_of(Seq::<AssetEvent>::empty()) == Seq::<BalanceChange>::empty());
    assert(debits_of(Seq::<AssetEvent>::empty()) == Seq::<BalanceChange>::empty());
    assert(credits_of(events) =~= Seq::<BalanceChange>::empty());
    assert(debits_of(events) =~= Seq::<BalanceChange>::empty());
}

} // verus!
