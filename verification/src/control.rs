//! Classification of declared accounts: flattening the chart's six leaf
//! lists into a map from account name to classified account.
//!
//! The map is keyed by account name; on duplicate names the later
//! declaration wins, in the fixed processing order equities, debt capital,
//! fixed assets, working capital, expenses, revenue.

use vstd::pervasive::VecAdditionalExecFns;
use vstd::prelude::*;

use crate::amount::Amount;
use crate::definition::{Account, AccountsReader};

verus! {

/// The passive side of the balance taxonomy.
#[derive(Clone, Copy, PartialEq, Eq, Structural, Debug)]
pub enum PassiveType {
    Equity,
    DebtCapital,
}

/// The active side of the balance taxonomy.
#[derive(Clone, Copy, PartialEq, Eq, Structural, Debug)]
pub enum ActiveType {
    WorkingCapital,
    FixedAssets,
}

/// The income taxonomy.
#[derive(Clone, Copy, PartialEq, Eq, Structural, Debug)]
pub enum IncomeType {
    Revenue,
    Expense,
}

/// The balance taxonomy.
#[derive(Clone, Copy, PartialEq, Eq, Structural, Debug)]
pub enum BalanceType {
    Passive(PassiveType),
    Active(ActiveType),
}

/// The taxonomic kind of a classified account.
#[derive(Clone, Copy, PartialEq, Eq, Structural, Debug)]
pub enum AccountType {
    Balance(BalanceType),
    Income(IncomeType),
}

/// A declared account enriched with the taxonomic kind of the leaf list it
/// came from.
#[derive(PartialEq, Debug)]
pub struct LedgerAccount {
    pub name: String,
    pub start: Amount,
    pub account_type: AccountType,
}

impl Clone for LedgerAccount {
    fn clone(&self) -> (r: Self)
        ensures
            r == *self,
    {
        LedgerAccount {
            name: self.name.clone(),
            start: self.start,
            account_type: self.account_type,
        }
    }
}

/// The classified account derived from `account` under `account_type`.
pub open spec fn classified(account: Account, account_type: AccountType) -> LedgerAccount {
    LedgerAccount { name: account.name, start: account.start, account_type: account_type }
}

impl LedgerAccount {
    /// The classified account for `account` under `account_type`.
    pub fn from(account: &Account, account_type: &AccountType) -> (r: Self)
        ensures
            r == classified(*account, *account_type),
    {
        LedgerAccount {
            name: account.name.clone(),
            start: account.start,
            account_type: *account_type,
        }
    }
}

/// The accounts of one leaf list, each classified under that list's kind.
pub open spec fn tagged(accounts: Seq<Account>, account_type: AccountType) -> Seq<LedgerAccount> {
    accounts.map_values(|account: Account| classified(account, account_type))
}

/// The map built by inserting the classified accounts of `s` in order, so
/// that on a shared name the later entry wins.
pub open spec fn account_map_of(s: Seq<LedgerAccount>) -> Map<Seq<char>, LedgerAccount>
    decreases s.len(),
{
    if s.len() == 0 {
        Map::empty()
    } else {
        account_map_of(s.drop_last()).insert(s.last().name@, s.last())
    }
}

/// Pairwise-distinct account names.
pub open spec fn distinct_names(s: Seq<LedgerAccount>) -> bool {
    forall|i: int, j: int| 0 <= i < j < s.len() ==> s[i].name@ != s[j].name@
}

/// The set of account names occurring in `s`.
pub open spec fn declared_names(s: Seq<LedgerAccount>) -> Set<Seq<char>> {
    Set::new(|n: Seq<char>| exists|i: int| 0 <= i < s.len() && s[i].name@ == n)
}

/// A name is a key of `account_map_of(s)` exactly when some entry of `s`
/// bears it.
pub proof fn lemma_account_map_contains(s: Seq<LedgerAccount>, n: Seq<char>)
    ensures
        account_map_of(s).dom().contains(n) <==> exists|i: int|
            0 <= i < s.len() && s[i].name@ == n,
    decreases s.len(),
{
    if s.len() == 0 {
    } else {
        let dl = s.drop_last();
        lemma_account_map_contains(dl, n);
        if n == s.last().name@ {
            assert(s[s.len() - 1].name@ == n);
        } else {
            if account_map_of(s).dom().contains(n) {
                let i = choose|i: int| 0 <= i < dl.len() && dl[i].name@ == n;
                assert(s[i].name@ == n);
            }
            if exists|i: int| 0 <= i < s.len() && s[i].name@ == n {
                let i = choose|i: int| 0 <= i < s.len() && s[i].name@ == n;
                assert(dl[i].name@ == n);
            }
        }
    }
}

/// The entry whose name has no later duplicate is what the map holds under
/// that name.
pub proof fn lemma_account_map_last_occurrence(s: Seq<LedgerAccount>, i: int)
    requires
        0 <= i < s.len(),
        forall|j: int| i < j < s.len() ==> s[j].name@ != s[i].name@,
    ensures
        account_map_of(s).dom().contains(s[i].name@),
        account_map_of(s)[s[i].name@] == s[i],
    decreases s.len(),
{
    if i < s.len() - 1 {
        let dl = s.drop_last();
        assert(forall|j: int| i < j < dl.len() ==> dl[j].name@ != dl[i].name@);
        lemma_account_map_last_occurrence(dl, i);
        assert(s.last().name@ != s[i].name@);
    }
}

proof fn lemma_account_map_dom_len(s: Seq<LedgerAccount>)
    requires
        distinct_names(s),
    ensures
        account_map_of(s).dom().finite(),
        account_map_of(s).dom().len() == s.len(),
    decreases s.len(),
{
    if s.len() > 0 {
        let dl = s.drop_last();
        assert(distinct_names(dl));
        lemma_account_map_dom_len(dl);
        lemma_account_map_contains(dl, s.last().name@);
        if exists|i: int| 0 <= i < dl.len() && dl[i].name@ == s.last().name@ {
            let i = choose|i: int| 0 <= i < dl.len() && dl[i].name@ == s.last().name@;
            assert(s[i].name@ == s[s.len() - 1].name@);
            assert(false);
        }
        assert(!account_map_of(dl).dom().contains(s.last().name@));
    }
}

proof fn lemma_account_map_update(s: Seq<LedgerAccount>, i: int, a: LedgerAccount)
    requires
        0 <= i < s.len(),
        s[i].name@ == a.name@,
        distinct_names(s),
    ensures
        account_map_of(s.update(i, a)) == account_map_of(s).insert(a.name@, a),
    decreases s.len(),
{
    let t = s.update(i, a);
    let dl = s.drop_last();
    if i == s.len() - 1 {
        assert(t.drop_last() =~= dl);
        assert(t.last() == a);
        assert(account_map_of(dl).insert(s[i].name@, s[i]).insert(a.name@, a) =~= account_map_of(
            dl,
        ).insert(a.name@, a));
    } else {
        assert(t.drop_last() =~= dl.update(i, a));
        assert(t.last() == s.last());
        assert(distinct_names(dl));
        lemma_account_map_update(dl, i, a);
        assert(s.last().name@ != a.name@);
        assert(account_map_of(dl).insert(a.name@, a).insert(s.last().name@, s.last())
            =~= account_map_of(dl).insert(s.last().name@, s.last()).insert(a.name@, a));
    }
}

fn str_eq(a: &str, b: &str) -> (r: bool)
    ensures
        r == (a@ == b@),
{
    let left: String = a.to_owned();
    let right: String = b.to_owned();
    left == right
}

fn find_name(entries: &Vec<LedgerAccount>, name: &str) -> (r: Option<usize>)
    ensures
        match r {
            Some(i) => i < entries@.len() && entries@[i as int].name@ == name@,
            None => forall|j: int| 0 <= j < entries@.len() ==> entries@[j].name@ != name@,
        },
{
    let mut i: usize = 0;
    while i < entries.len()
        invariant
            i <= entries@.len(),
            forall|j: int| 0 <= j < i ==> entries@[j].name@ != name@,
        decreases entries@.len() - i,
    {
        if str_eq(entries[i].name.as_str(), name) {
            return Some(i);
        }
        i = i + 1;
    }
    None
}

/// The classified accounts, keyed by account name.  Its view is the map of
/// the entries inserted so far; on a shared name the later insertion wins.
pub struct AccountMap {
    entries: Vec<LedgerAccount>,
}

impl View for AccountMap {
    type V = Map<Seq<char>, LedgerAccount>;

    closed spec fn view(&self) -> Map<Seq<char>, LedgerAccount> {
        account_map_of(self.entries@)
    }
}

impl AccountMap {
    #[verifier::type_invariant]
    spec fn wf(&self) -> bool {
        distinct_names(self.entries@)
    }

    /// The empty map.
    pub fn new() -> (r: Self)
        ensures
            r@ == Map::<Seq<char>, LedgerAccount>::empty(),
    {
        AccountMap { entries: Vec::new() }
    }

    /// Inserts `account` under its name; an entry already bearing that name
    /// is replaced.
    pub fn insert(&mut self, account: LedgerAccount)
        ensures
            final(self)@ == old(self)@.insert(account.name@, account),
    {
        proof {
            use_type_invariant(&*self);
        }
        let mut entries: Vec<LedgerAccount> = Vec::new();
        core::mem::swap(&mut entries, &mut self.entries);
        let ghost e0 = entries@;
        match find_name(&entries, account.name.as_str()) {
            Some(i) => {
                entries.set(i, account);
                proof {
                    lemma_account_map_update(e0, i as int, account);
                    assert forall|p: int, q: int|
                        0 <= p < q < entries@.len() implies entries@[p].name@
                        != entries@[q].name@ by {
                        assert(e0[p].name@ != e0[q].name@);
                    }
                }
            },
            None => {
                entries.push(account);
                proof {
                    assert(entries@.drop_last() =~= e0);
                    assert(entries@.last() == account);
                    assert forall|p: int, q: int|
                        0 <= p < q < entries@.len() implies entries@[p].name@
                        != entries@[q].name@ by {
                        if q < entries@.len() - 1 {
                            assert(e0[p].name@ != e0[q].name@);
                        } else {
                            assert(e0[p].name@ != account.name@);
                        }
                    }
                }
            },
        }
        core::mem::swap(&mut entries, &mut self.entries);
    }

    /// Whether an account bearing `name` is in the map.
    pub fn contains_name(&self, name: &str) -> (r: bool)
        ensures
            r == self@.dom().contains(name@),
    {
        proof {
            lemma_account_map_contains(self.entries@, name@);
        }
        match find_name(&self.entries, name) {
            Some(_) => true,
            None => false,
        }
    }

    /// The account bearing `name`, if any.
    pub fn get(&self, name: &str) -> (r: Option<&LedgerAccount>)
        ensures
            match r {
                Some(account) => self@.dom().contains(name@) && *account == self@[name@],
                None => !self@.dom().contains(name@),
            },
    {
        proof {
            use_type_invariant(&*self);
            lemma_account_map_contains(self.entries@, name@);
        }
        match find_name(&self.entries, name) {
            Some(i) => {
                proof {
                    lemma_account_map_last_occurrence(self.entries@, i as int);
                }
                Some(&self.entries[i])
            },
            None => None,
        }
    }

    /// The number of entries: one for each distinct declared name.
    pub fn len(&self) -> (r: usize)
        ensures
            r as nat == self@.dom().len(),
    {
        proof {
            use_type_invariant(&*self);
            lemma_account_map_dom_len(self.entries@);
        }
        self.entries.len()
    }
}

fn read_accounts(raw_accounts: Vec<Account>, account_type: AccountType) -> (r: Vec<LedgerAccount>)
    ensures
        r@ == tagged(raw_accounts@, account_type),
{
    let mut out: Vec<LedgerAccount> = Vec::new();
    let mut i: usize = 0;
    while i < raw_accounts.len()
        invariant
            i <= raw_accounts@.len(),
            out@ == tagged(raw_accounts@, account_type).take(i as int),
        decreases raw_accounts@.len() - i,
    {
        out.push(LedgerAccount::from(&raw_accounts[i], &account_type));
        proof {
            assert(out@ =~= tagged(raw_accounts@, account_type).take(i as int + 1));
        }
        i = i + 1;
    }
    proof {
        assert(tagged(raw_accounts@, account_type).take(raw_accounts@.len() as int) =~= tagged(
            raw_accounts@,
            account_type,
        ));
    }
    out
}

/// The six leaf lists classified under their kinds and laid out in
/// processing order: equities, debt capital, fixed assets, working capital,
/// expenses, revenue.
pub open spec fn classified_accounts<R: AccountsReader>(reader: &R) -> Seq<LedgerAccount> {
    tagged(reader.spec_equities(), AccountType::Balance(BalanceType::Passive(PassiveType::Equity)))
        + tagged(
        reader.spec_debt_capital(),
        AccountType::Balance(BalanceType::Passive(PassiveType::DebtCapital)),
    ) + tagged(
        reader.spec_fixed_assets(),
        AccountType::Balance(BalanceType::Active(ActiveType::FixedAssets)),
    ) + tagged(
        reader.spec_working_capital(),
        AccountType::Balance(BalanceType::Active(ActiveType::WorkingCapital)),
    ) + tagged(reader.spec_expenses(), AccountType::Income(IncomeType::Expense)) + tagged(
        reader.spec_revenue(),
        AccountType::Income(IncomeType::Revenue),
    )
}

/// Flattens the chart into a map from account name to classified account.
/// On duplicate names the last processed declaration wins.
pub fn from_ledger_definition<R: AccountsReader>(ledger_definition: &R) -> (r: AccountMap)
    ensures
        r@ == account_map_of(classified_accounts(ledger_definition)),
{
    let equities = read_accounts(
        ledger_definition.get_equities(),
        AccountType::Balance(BalanceType::Passive(PassiveType::Equity)),
    );
    let mut debt_capital = read_accounts(
        ledger_definition.get_debt_capital(),
        AccountType::Balance(BalanceType::Passive(PassiveType::DebtCapital)),
    );
    let mut fixed_assets = read_accounts(
        ledger_definition.get_fixed_assets(),
        AccountType::Balance(BalanceType::Active(ActiveType::FixedAssets)),
    );
    let mut working_capital = read_accounts(
        ledger_definition.get_working_capital(),
        AccountType::Balance(BalanceType::Active(ActiveType::WorkingCapital)),
    );
    let mut expenses = read_accounts(
        ledger_definition.get_expenses(),
        AccountType::Income(IncomeType::Expense),
    );
    let mut revenue = read_accounts(
        ledger_definition.get_revenue(),
        AccountType::Income(IncomeType::Revenue),
    );
    let mut ledger = equities;
    ledger.append(&mut debt_capital);
    ledger.append(&mut fixed_assets);
    ledger.append(&mut working_capital);
    ledger.append(&mut expenses);
    ledger.append(&mut revenue);
    proof {
        assert(ledger@ =~= classified_accounts(ledger_definition));
    }
    let mut accounts = AccountMap::new();
    let mut i: usize = 0;
    while i < ledger.len()
        invariant
            i <= ledger@.len(),
            ledger@ == classified_accounts(ledger_definition),
            accounts@ == account_map_of(ledger@.take(i as int)),
        decreases ledger@.len() - i,
    {
        accounts.insert(ledger[i].clone());
        proof {
            assert(ledger@.take(i as int + 1).drop_last() =~= ledger@.take(i as int));
            assert(ledger@.take(i as int + 1).last() == ledger@[i as int]);
        }
        i = i + 1;
    }
    proof {
        assert(ledger@.take(ledger@.len() as int) =~= ledger@);
    }
    accounts
}

/// Classification completeness: the classified map's keys are exactly the
/// names declared across the six leaf lists, so the map's size is the
/// number of unique declared names.
pub proof fn lemma_classification_completeness<R: AccountsReader>(reader: &R)
    ensures
        account_map_of(classified_accounts(reader)).dom() == declared_names(
            classified_accounts(reader),
        ),
{
    let cs = classified_accounts(reader);
    assert forall|n: Seq<char>| #[trigger]
        account_map_of(cs).dom().contains(n) implies declared_names(cs).contains(n) by {
        lemma_account_map_contains(cs, n);
    }
    assert forall|n: Seq<char>| #[trigger]
        declared_names(cs).contains(n) implies account_map_of(cs).dom().contains(n) by {
        lemma_account_map_contains(cs, n);
    }
    assert(account_map_of(cs).dom() =~= declared_names(cs));
}

/// Whether exactly one entry of `s` bears the name `n`.
pub open spec fn uniquely_declared(s: Seq<LedgerAccount>, n: Seq<char>) -> bool {
    &&& exists|i: int| 0 <= i < s.len() && s[i].name@ == n
    &&& forall|i: int, j: int|
        0 <= i < s.len() && 0 <= j < s.len() && s[i].name@ == n && s[j].name@ == n ==> i == j
}

proof fn lemma_tagged_segment(
    cs: Seq<LedgerAccount>,
    pre_len: int,
    list: Seq<Account>,
    kind: AccountType,
    k: int,
)
    requires
        0 <= k < list.len(),
        0 <= pre_len,
        pre_len + list.len() <= cs.len(),
        forall|j: int| 0 <= j < list.len() ==> cs[pre_len + j] == classified(list[j], kind),
        uniquely_declared(cs, list[k].name@),
    ensures
        account_map_of(cs).dom().contains(list[k].name@),
        account_map_of(cs)[list[k].name@] == classified(list[k], kind),
{
    let i = pre_len + k;
    assert(cs[i] == classified(list[k], kind));
    assert forall|j: int| i < j < cs.len() implies cs[j].name@ != cs[i].name@ by {
        if cs[j].name@ == cs[i].name@ {
            assert(j == i);
        }
    }
    lemma_account_map_last_occurrence(cs, i);
}

/// Classification correctness: an account declared in one of the six leaf
/// lists whose name collides with no other declaration stands in the
/// classified map exactly as classified under that list's kind.
pub proof fn lemma_classification_correctness<R: AccountsReader>(reader: &R)
    ensures
        forall|k: int|
            0 <= k < reader.spec_equities().len() && uniquely_declared(
                classified_accounts(reader),
                (#[trigger] reader.spec_equities()[k]).name@,
            ) ==> account_map_of(classified_accounts(reader)).dom().contains(
                reader.spec_equities()[k].name@,
            ) && account_map_of(classified_accounts(reader))[reader.spec_equities()[k].name@]
                == classified(
                reader.spec_equities()[k],
                AccountType::Balance(BalanceType::Passive(PassiveType::Equity)),
            ),
        forall|k: int|
            0 <= k < reader.spec_debt_capital().len() && uniquely_declared(
                classified_accounts(reader),
                (#[trigger] reader.spec_debt_capital()[k]).name@,
            ) ==> account_map_of(classified_accounts(reader)).dom().contains(
                reader.spec_debt_capital()[k].name@,
            ) && account_map_of(classified_accounts(reader))[reader.spec_debt_capital()[k].name@]
                == classified(
                reader.spec_debt_capital()[k],
                AccountType::Balance(BalanceType::Passive(PassiveType::DebtCapital)),
            ),
        forall|k: int|
            0 <= k < reader.spec_fixed_assets().len() && uniquely_declared(
                classified_accounts(reader),
                (#[trigger] reader.spec_fixed_assets()[k]).name@,
            ) ==> account_map_of(classified_accounts(reader)).dom().contains(
                reader.spec_fixed_assets()[k].name@,
            ) && account_map_of(classified_accounts(reader))[reader.spec_fixed_assets()[k].name@]
                == classified(
                reader.spec_fixed_assets()[k],
                AccountType::Balance(BalanceType::Active(ActiveType::FixedAssets)),
            ),
        forall|k: int|
            0 <= k < reader.spec_working_capital().len() && uniquely_declared(
                classified_accounts(reader),
                (#[trigger] reader.spec_working_capital()[k]).name@,
            ) ==> account_map_of(classified_accounts(reader)).dom().contains(
                reader.spec_working_capital()[k].name@,
            ) && account_map_of(classified_accounts(reader))[reader.spec_working_capital()[k].name@]
                == classified(
                reader.spec_working_capital()[k],
                AccountType::Balance(BalanceType::Active(ActiveType::WorkingCapital)),
            ),
        forall|k: int|
            0 <= k < reader.spec_expenses().len() && uniquely_declared(
                classified_accounts(reader),
                (#[trigger] reader.spec_expenses()[k]).name@,
            ) ==> account_map_of(classified_accounts(reader)).dom().contains(
                reader.spec_expenses()[k].name@,
            ) && account_map_of(classified_accounts(reader))[reader.spec_expenses()[k].name@]
                == classified(reader.spec_expenses()[k], AccountType::Income(IncomeType::Expense)),
        forall|k: int|
            0 <= k < reader.spec_revenue().len() && uniquely_declared(
                classified_accounts(reader),
                (#[trigger] reader.spec_revenue()[k]).name@,
            ) ==> account_map_of(classified_accounts(reader)).dom().contains(
                reader.spec_revenue()[k].name@,
            ) && account_map_of(classified_accounts(reader))[reader.spec_revenue()[k].name@]
                == classified(reader.spec_revenue()[k], AccountType::Income(IncomeType::Revenue)),
{
    let cs = classified_accounts(reader);
    let equity_kind = AccountType::Balance(BalanceType::Passive(PassiveType::Equity));
    let debt_kind = AccountType::Balance(BalanceType::Passive(PassiveType::DebtCapital));
    let fixed_kind = AccountType::Balance(BalanceType::Active(ActiveType::FixedAssets));
    let working_kind = AccountType::Balance(BalanceType::Active(ActiveType::WorkingCapital));
    let expense_kind = AccountType::Income(IncomeType::Expense);
    let revenue_kind = AccountType::Income(IncomeType::Revenue);
    let eq = reader.spec_equities();
    let dc = reader.spec_debt_capital();
    let fa = reader.spec_fixed_assets();
    let wc = reader.spec_working_capital();
    let ex = reader.spec_expenses();
    let rv = reader.spec_revenue();
    let off_dc = eq.len() as int;
    let off_fa = off_dc + dc.len();
    let off_wc = off_fa + fa.len();
    let off_ex = off_wc + wc.len();
    let off_rv = off_ex + ex.len();
    assert(forall|j: int| 0 <= j < eq.len() ==> cs[j] == classified(eq[j], equity_kind));
    assert(forall|j: int| 0 <= j < dc.len() ==> cs[off_dc + j] == classified(dc[j], debt_kind));
    assert(forall|j: int| 0 <= j < fa.len() ==> cs[off_fa + j] == classified(fa[j], fixed_kind));
    assert(forall|j: int| 0 <= j < wc.len() ==> cs[off_wc + j] == classified(wc[j], working_kind));
    assert(forall|j: int| 0 <= j < ex.len() ==> cs[off_ex + j] == classified(ex[j], expense_kind));
    assert(forall|j: int| 0 <= j < rv.len() ==> cs[off_rv + j] == classified(rv[j], revenue_kind));
    assert forall|k: int|
        0 <= k < eq.len() && uniquely_declared(cs, (#[trigger] eq[k]).name@) implies account_map_of(cs).dom().contains(eq[k].name@)
        && account_map_of(cs)[eq[k].name@] == classified(eq[k], equity_kind) by {
        lemma_tagged_segment(cs, 0, eq, equity_kind, k);
    }
    assert forall|k: int|
        0 <= k < dc.len() && uniquely_declared(cs, (#[trigger] dc[k]).name@) implies account_map_of(cs).dom().contains(dc[k].name@)
        && account_map_of(cs)[dc[k].name@] == classified(dc[k], debt_kind) by {
        lemma_tagged_segment(cs, off_dc, dc, debt_kind, k);
    }
    assert forall|k: int|
        0 <= k < fa.len() && uniquely_declared(cs, (#[trigger] fa[k]).name@) implies account_map_of(cs).dom().contains(fa[k].name@)
        && account_map_of(cs)[fa[k].name@] == classified(fa[k], fixed_kind) by {
        lemma_tagged_segment(cs, off_fa, fa, fixed_kind, k);
    }
    assert forall|k: int|
        0 <= k < wc.len() && uniquely_declared(cs, (#[trigger] wc[k]).name@) implies account_map_of(cs).dom().contains(wc[k].name@)
        && account_map_of(cs)[wc[k].name@] == classified(wc[k], working_kind) by {
        lemma_tagged_segment(cs, off_wc, wc, working_kind, k);
    }
    assert forall|k: int|
        0 <= k < ex.len() && uniquely_declared(cs, (#[trigger] ex[k]).name@) implies account_map_of(cs).dom().contains(ex[k].name@)
        && account_map_of(cs)[ex[k].name@] == classified(ex[k], expense_kind) by {
        lemma_tagged_segment(cs, off_ex, ex, expense_kind, k);
    }
    assert forall|k: int|
        0 <= k < rv.len() && uniquely_declared(cs, (#[trigger] rv[k]).name@) implies account_map_of(cs).dom().contains(rv[k].name@)
        && account_map_of(cs)[rv[k].name@] == classified(rv[k], revenue_kind) by {
        lemma_tagged_segment(cs, off_rv, rv, revenue_kind, k);
    }
}

} // verus!
