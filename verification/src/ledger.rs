//! The statement as it is read line by line: the transactions taken so far
//! and the categories they were given.

use crate::category::{with_name, Category, CategoryRegistry};
use crate::transaction::{parse_transaction, parsed, LineParseError, Transaction, TransactionView};
use vstd::prelude::*;

verus! {

/// What has been read of a statement.
#[derive(Debug)]
pub struct Ledger {
    transactions: Vec<Transaction>,
    registry: CategoryRegistry,
}

/// The mathematical value of a [`Ledger`]: the transactions in the order of
/// their lines, and the category names in the order of their identifiers.
pub struct LedgerView {
    pub transactions: Seq<TransactionView>,
    pub categories: Seq<Seq<char>>,
}

impl LedgerView {
    /// Whether the transaction at `i` has the identifier `i + 1` and a
    /// category identifier that names its category.
    pub open spec fn settled(self, i: int) -> bool {
        let transaction = self.transactions[i];
        &&& transaction.id == i + 1
        &&& transaction.category_id matches Some(category)
        &&& category < self.categories.len()
        &&& self.categories[category as int] == transaction.category
    }

    /// Whether one of the first `i` transactions has the category `category`.
    pub open spec fn used_before(self, category: int, i: int) -> bool {
        exists|j: int|
            0 <= j < i && j < self.transactions.len() && (
            #[trigger] self.transactions[j]).category_id == Some(category as u32)
    }

    /// The category identifier of the transaction at `i`.
    pub open spec fn category_of(self, i: int) -> int {
        match self.transactions[i].category_id {
            Some(category) => category as int,
            None => -1,
        }
    }

    /// What holds of every statement that was read line by line:
    /// transaction identifiers count up from 1 without a gap, no category
    /// name occurs twice, every category belongs to some transaction, and a
    /// transaction's category is either one that an earlier transaction has
    /// or the next free one.
    pub open spec fn well_formed(self) -> bool {
        &&& self.transactions.len() <= u32::MAX
        &&& self.categories.len() <= self.transactions.len()
        &&& self.categories.no_duplicates()
        &&& forall|i: int| 0 <= i < self.transactions.len() ==> #[trigger] self.settled(i)
        &&& forall|c: int|
            0 <= c < self.categories.len() ==> #[trigger] self.used_before(
                c,
                self.transactions.len() as int,
            )
        &&& forall|i: int, c: int|
            0 <= i < self.transactions.len() && 0 <= c < self.category_of(i)
                ==> #[trigger] self.used_before(c, i)
    }
}

/// The statement of which nothing has been read.
pub open spec fn empty_ledger() -> LedgerView {
    LedgerView { transactions: Seq::empty(), categories: Seq::empty() }
}

/// The identifier that the next transaction gets.
pub open spec fn next_id(state: LedgerView) -> u32 {
    (state.transactions.len() + 1) as u32
}

/// The statement after one more line: unchanged where the line cannot be
/// read; otherwise with the line's transaction at the end, under the next
/// identifier and with the identifier of its category, which is added to
/// the categories where it is new.
pub open spec fn recorded(state: LedgerView, line: Seq<char>) -> LedgerView {
    match parsed(line, next_id(state)) {
        Err(_) => state,
        Ok(transaction) => {
            let categories = with_name(state.categories, transaction.category);
            let category_id = Some(categories.index_of(transaction.category) as u32);
            LedgerView {
                transactions: state.transactions.push(
                    TransactionView { category_id, ..transaction },
                ),
                categories,
            }
        },
    }
}

/// The statement after the given lines, read in order.
pub open spec fn replayed(lines: Seq<Seq<char>>) -> LedgerView
    decreases lines.len(),
{
    if lines.len() == 0 {
        empty_ledger()
    } else {
        recorded(replayed(lines.drop_last()), lines.last())
    }
}

/// Whether a line can be read.
pub open spec fn is_accepted(line: Seq<char>) -> bool {
    parsed(line, 0) is Ok
}

/// The lines that can be read, in order.
pub open spec fn accepted(lines: Seq<Seq<char>>) -> Seq<Seq<char>> {
    lines.filter(|line: Seq<char>| is_accepted(line))
}

/// The errors of the lines that cannot be read, in order.
pub open spec fn rejections(lines: Seq<Seq<char>>) -> Seq<LineParseError>
    decreases lines.len(),
{
    if lines.len() == 0 {
        Seq::empty()
    } else {
        match parsed(lines.last(), 0) {
            Err(error) => rejections(lines.drop_last()).push(error),
            Ok(_) => rejections(lines.drop_last()),
        }
    }
}

/// Whether a line can be read, and with which error it fails, does not
/// depend on the identifier it is read with.
pub proof fn lemma_identifier_is_no_reason(line: Seq<char>, id: u32, other: u32)
    ensures
        parsed(line, id) is Ok <==> parsed(line, other) is Ok,
        parsed(line, id) matches Err(error) ==> parsed(line, other) == Err::<
            TransactionView,
            LineParseError,
        >(error),
        parsed(line, id) matches Ok(transaction) ==> parsed(line, other) == Ok::<
            TransactionView,
            LineParseError,
        >(TransactionView { id: other, ..transaction }),
{
}

/// One more line keeps a statement well formed.
pub proof fn lemma_recorded_well_formed(state: LedgerView, line: Seq<char>)
    requires
        state.well_formed(),
        state.transactions.len() < u32::MAX,
    ensures
        recorded(state, line).well_formed(),
        recorded(state, line).transactions.len() <= state.transactions.len() + 1,
{
    let after = recorded(state, line);
    match parsed(line, next_id(state)) {
        Err(_) => {},
        Ok(transaction) => {
            let n = state.transactions.len() as int;
            let name = transaction.category;
            let categories = with_name(state.categories, name);
            assert(categories.contains(name)) by {
                if !state.categories.contains(name) {
                    assert(categories[categories.len() - 1] == name);
                }
            }
            let place = categories.index_of(name);
            assert(0 <= place < categories.len() && categories[place] == name);
            assert(categories.no_duplicates()) by {
                if !state.categories.contains(name) {
                    assert forall|a: int, b: int|
                        0 <= a < categories.len() && 0 <= b < categories.len() && a
                            != b implies categories[a] != categories[b] by {
                        if a < state.categories.len() && b < state.categories.len() {
                            assert(state.categories[a] != state.categories[b]);
                        } else if a < state.categories.len() {
                            assert(state.categories.contains(state.categories[a]));
                        } else {
                            assert(state.categories.contains(state.categories[b]));
                        }
                    }
                }
            }
            assert(after.transactions[n].category_id == Some(place as u32));
            assert forall|i: int| 0 <= i < after.transactions.len() implies #[trigger] after.settled(
                i,
            ) by {
                if i < n {
                    assert(state.settled(i));
                    assert(after.transactions[i] == state.transactions[i]);
                }
            }
            assert forall|c: int, i: int|
                0 <= i <= n && state.used_before(c, i) implies after.used_before(c, i) by {
                let j = choose|j: int|
                    0 <= j < i && j < state.transactions.len() && (
                    #[trigger] state.transactions[j]).category_id == Some(c as u32);
                assert(after.transactions[j] == state.transactions[j]);
            }
            assert forall|c: int| 0 <= c < categories.len() implies #[trigger] after.used_before(
                c,
                after.transactions.len() as int,
            ) by {
                if c < state.categories.len() {
                    assert(state.used_before(c, n));
                    let j = choose|j: int|
                        0 <= j < n && j < state.transactions.len() && (
                        #[trigger] state.transactions[j]).category_id == Some(c as u32);
                    assert(after.transactions[j] == state.transactions[j]);
                } else {
                    assert(c == place) by {
                        assert(categories[c] == name);
                    }
                    assert(after.transactions[n].category_id == Some(c as u32));
                }
            }
            assert forall|i: int, c: int|
                0 <= i < after.transactions.len() && 0 <= c < after.category_of(
                    i,
                ) implies #[trigger] after.used_before(c, i) by {
                if i < n {
                    assert(after.transactions[i] == state.transactions[i]);
                    assert(state.category_of(i) == after.category_of(i));
                    assert(state.used_before(c, i));
                } else {
                    assert(c < place);
                    assert(c < state.categories.len());
                    assert(state.used_before(c, n));
                }
            }
        },
    }
}

/// A statement that was read line by line is well formed, and holds no more
/// transactions than it had lines.
pub proof fn lemma_replayed_well_formed(lines: Seq<Seq<char>>)
    requires
        lines.len() <= u32::MAX,
    ensures
        replayed(lines).well_formed(),
        replayed(lines).transactions.len() <= lines.len(),
    decreases lines.len(),
{
    if lines.len() > 0 {
        lemma_replayed_well_formed(lines.drop_last());
        lemma_recorded_well_formed(replayed(lines.drop_last()), lines.last());
    }
}

/// Transaction identifiers are 1, 2, 3 and so on in the order of the lines
/// that could be read: the statement holds one transaction for each such
/// line, and the transaction at place `k` is what the `k`-th such line gives
/// when it is read with the identifier `k + 1`. Lines that could not be read
/// use up no identifier.
pub proof fn lemma_identifiers_follow_accepted_lines(lines: Seq<Seq<char>>)
    requires
        lines.len() <= u32::MAX,
    ensures
        replayed(lines).transactions.len() == accepted(lines).len(),
        forall|k: int|
            0 <= k < accepted(lines).len() ==> (#[trigger] replayed(lines).transactions[k]).id
                == k + 1,
        forall|k: int|
            0 <= k < accepted(lines).len() ==> parsed(accepted(lines)[k], (k + 1) as u32)
                == Ok::<TransactionView, LineParseError>(
                TransactionView {
                    category_id: None,
                    ..(#[trigger] replayed(lines).transactions[k])
                },
            ),
    decreases lines.len(),
{
    reveal(Seq::filter);
    if lines.len() > 0 {
        let before = lines.drop_last();
        let line = lines.last();
        lemma_identifiers_follow_accepted_lines(before);
        lemma_replayed_well_formed(before);
        let state = replayed(before);
        lemma_identifier_is_no_reason(line, next_id(state), 0);
        let pred = |line: Seq<char>| is_accepted(line);
        assert(accepted(lines) == if pred(line) {
            accepted(before).push(line)
        } else {
            accepted(before)
        });
        match parsed(line, next_id(state)) {
            Err(_) => {},
            Ok(transaction) => {
                let n = state.transactions.len() as int;
                assert forall|k: int| 0 <= k < accepted(lines).len() implies parsed(
                    accepted(lines)[k],
                    (k + 1) as u32,
                ) == Ok::<TransactionView, LineParseError>(
                    TransactionView {
                        category_id: None,
                        ..(#[trigger] replayed(lines).transactions[k])
                    },
                ) by {
                    if k < n {
                        assert(replayed(lines).transactions[k] == state.transactions[k]);
                        assert(accepted(lines)[k] == accepted(before)[k]);
                    }
                }
            },
        }
    }
}

/// Two transactions of a statement have the same category identifier if and
/// only if they have the same category name, character by character.
pub proof fn lemma_one_identifier_per_name(state: LedgerView, i: int, j: int)
    requires
        state.well_formed(),
        0 <= i < state.transactions.len(),
        0 <= j < state.transactions.len(),
    ensures
        state.transactions[i].category_id == state.transactions[j].category_id
            <==> state.transactions[i].category == state.transactions[j].category,
{
    assert(state.settled(i));
    assert(state.settled(j));
}

/// Category identifiers are given in the order in which the names are first
/// seen, counted from zero: the first transaction has the category 0, and
/// every other transaction has a category that an earlier one has, or the
/// one after the largest that an earlier one has.
pub proof fn lemma_categories_in_order_of_first_use(state: LedgerView, i: int)
    requires
        state.well_formed(),
        0 <= i < state.transactions.len(),
    ensures
        state.category_of(i) >= 0,
        i == 0 ==> state.category_of(i) == 0,
        forall|c: int| 0 <= c < state.category_of(i) ==> state.used_before(c, i),
{
    assert(state.settled(i));
    if i == 0 && state.category_of(i) > 0 {
        assert(state.used_before(0, 0));
    }
}

impl View for Ledger {
    type V = LedgerView;

    closed spec fn view(&self) -> LedgerView {
        LedgerView { transactions: self.transactions.deep_view(), categories: self.registry@ }
    }
}

impl Ledger {
    /// Whether the value is one that reading lines can lead to, and all its
    /// dates are days that the calendar has.
    pub closed spec fn well_formed(&self) -> bool {
        &&& self@.well_formed()
        &&& self.registry.well_formed()
        &&& forall|i: int|
            0 <= i < self.transactions.len() ==> (#[trigger] self.transactions[i]).date.is_valid()
    }

    /// A well-formed value has a well-formed view.
    pub proof fn lemma_well_formed(&self)
        requires
            self.well_formed(),
        ensures
            self@.well_formed(),
    {
    }

    /// A statement of which nothing has been read.
    pub fn new() -> (ledger: Ledger)
        ensures
            ledger.well_formed(),
            ledger@ == empty_ledger(),
    {
        let ledger = Ledger { transactions: Vec::new(), registry: CategoryRegistry::new() };
        assert(ledger@.transactions =~= Seq::<TransactionView>::empty());
        ledger
    }

    /// Reads one more line. A line that cannot be read leaves the statement
    /// as it is and uses up no identifier.
    pub fn record_line(&mut self, line: &str) -> (result: Result<(), LineParseError>)
        requires
            old(self).well_formed(),
            old(self)@.transactions.len() < u32::MAX,
        ensures
            final(self).well_formed(),
            final(self)@.well_formed(),
            final(self)@ == recorded(old(self)@, line@),
            match result {
                Ok(_) => parsed(line@, next_id(old(self)@)) is Ok,
                Err(error) => parsed(line@, next_id(old(self)@)) == Err::<
                    TransactionView,
                    LineParseError,
                >(error),
            },
    {
        proof {
            lemma_recorded_well_formed(self@, line@);
        }
        let id = (self.transactions.len() + 1) as u32;
        match parse_transaction(line, id) {
            Err(error) => Err(error),
            Ok(transaction) => {
                let ghost before = self@;
                let ghost read = transaction@;
                let mut transaction = transaction;
                let category_id = self.registry.resolve(transaction.category.as_str());
                transaction.category_id = Some(category_id);
                let ghost names = self.registry@;
                assert(names.index_of(read.category) == category_id) by {
                    let place = names.index_of(read.category);
                    assert(names[category_id as int] == read.category);
                    assert(0 <= place < names.len() && names[place] == read.category);
                }
                let ghost done = self.transactions.deep_view();
                self.transactions.push(transaction);
                assert(self.transactions.deep_view() =~= done.push(
                    TransactionView { category_id: Some(category_id), ..read },
                ));
                assert(self@ == recorded(before, line@));
                Ok(())
            },
        }
    }

    /// Reads the given lines in order. Returns the statement and the errors
    /// of the lines that could not be read, in the order of those lines.
    pub fn import(lines: &Vec<String>) -> (result: (Ledger, Vec<LineParseError>))
        requires
            lines.len() < u32::MAX,
        ensures
            result.0.well_formed(),
            result.0@ == replayed(lines.deep_view()),
            result.1@ == rejections(lines.deep_view()),
    {
        let mut ledger = Ledger::new();
        let mut errors: Vec<LineParseError> = Vec::new();
        let ghost all = lines.deep_view();
        assert(all.take(0) =~= Seq::<Seq<char>>::empty());
        let mut i: usize = 0;
        while i < lines.len()
            invariant
                i <= lines.len() < u32::MAX,
                all == lines.deep_view(),
                ledger.well_formed(),
                ledger@ == replayed(all.take(i as int)),
                errors@ == rejections(all.take(i as int)),
            decreases lines.len() - i,
        {
            proof {
                lemma_replayed_well_formed(all.take(i as int));
                assert(all.take(i + 1).drop_last() =~= all.take(i as int));
                assert(all.take(i + 1).last() == lines[i as int]@);
                lemma_identifier_is_no_reason(lines[i as int]@, next_id(ledger@), 0);
            }
            match ledger.record_line(lines[i].as_str()) {
                Ok(_) => {},
                Err(error) => {
                    errors.push(error);
                },
            }
            i += 1;
        }
        assert(all.take(i as int) =~= all);
        (ledger, errors)
    }

    /// The transactions, in the order of their lines.
    pub fn transactions(&self) -> (transactions: &Vec<Transaction>)
        ensures
            transactions.deep_view() == self@.transactions,
            self.well_formed() ==> forall|i: int|
                0 <= i < transactions.len() ==> (#[trigger] transactions[i]).date.is_valid(),
    {
        &self.transactions
    }

    /// The categories, in the order of their identifiers.
    pub fn categories(&self) -> (categories: &Vec<Category>)
        requires
            self.well_formed(),
        ensures
            categories.deep_view() == crate::category::numbered(self@.categories),
    {
        self.registry.categories()
    }
}

} // verus!
