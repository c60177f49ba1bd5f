//! The memory bank: plans that the user approved, under the phrases that asked
//! for them. A request that was approved before is found here and needs no
//! research.
//!
//! The bank is kept in two tables of a database: phrases, which lead to intent
//! ids, and intents, which hold the plans. A `MemoryBank` holds what the tables
//! hold; every change is a `SqlWrite`, which the caller runs on the database and
//! then applies here.
use vstd::prelude::*;

use crate::fresh::{self, utc_moment};
use crate::plan::{Plan, PlanView};
use crate::text::{
    self, ascii_lower, char_lists, chars_of, has_prefix, has_text, is_ascii_text, joined,
    lemma_joined_chars, lemma_words, lemma_words_joined, lowercase, no_whitespace, string_of,
    texts, whitespace, words,
};

verus! {

/// One row of the phrases.
pub struct PhraseRow {
    pub phrase: String,
    pub intent_id: String,
}

/// One row of the intents. The plan is an error message where the database
/// holds something that is no plan.
pub struct IntentRow {
    pub id: String,
    pub plan: Result<Plan, String>,
}

pub struct MemoryBank {
    pub phrases: Vec<PhraseRow>,
    pub intents: Vec<IntentRow>,
}

/// The model of a stored plan.
pub open spec fn stored(plan: Result<Plan, String>) -> Result<PlanView, Seq<char>> {
    match plan {
        Ok(p) => Ok(p@),
        Err(e) => Err(e@),
    }
}

/// The model of a `MemoryBank`.
pub struct BankView {
    pub phrases: Map<Seq<char>, Seq<char>>,
    pub intents: Map<Seq<char>, Result<PlanView, Seq<char>>>,
}

/// The map that a list of keys and values stands for.
pub open spec fn pairs_map<V>(pairs: Seq<(Seq<char>, V)>) -> Map<Seq<char>, V>
    decreases pairs.len(),
{
    if pairs.len() == 0 {
        Map::empty()
    } else {
        pairs_map(pairs.drop_last()).insert(pairs.last().0, pairs.last().1)
    }
}

/// No key occurs twice.
pub open spec fn distinct_keys<V>(pairs: Seq<(Seq<char>, V)>) -> bool {
    forall|i: int, j: int|
        0 <= i < j < pairs.len() ==> (#[trigger] pairs[i]).0 != (#[trigger] pairs[j]).0
}

pub open spec fn phrase_pairs(rows: Seq<PhraseRow>) -> Seq<(Seq<char>, Seq<char>)> {
    rows.map_values(|r: PhraseRow| (r.phrase@, r.intent_id@))
}

pub open spec fn intent_pairs(rows: Seq<IntentRow>) -> Seq<
    (Seq<char>, Result<PlanView, Seq<char>>),
> {
    rows.map_values(|r: IntentRow| (r.id@, stored(r.plan)))
}

impl View for MemoryBank {
    type V = BankView;

    open spec fn view(&self) -> BankView {
        BankView {
            phrases: pairs_map(phrase_pairs(self.phrases@)),
            intents: pairs_map(intent_pairs(self.intents@)),
        }
    }
}

pub proof fn lemma_pairs<V>(pairs: Seq<(Seq<char>, V)>)
    requires
        distinct_keys(pairs),
    ensures
        forall|i: int|
            0 <= i < pairs.len() ==> pairs_map(pairs).contains_key((#[trigger] pairs[i]).0)
                && pairs_map(pairs)[pairs[i].0] == pairs[i].1,
        forall|k: Seq<char>| #[trigger]
            pairs_map(pairs).contains_key(k) ==> exists|i: int|
                0 <= i < pairs.len() && (#[trigger] pairs[i]).0 == k,
    decreases pairs.len(),
{
    if pairs.len() > 0 {
        let init = pairs.drop_last();
        assert forall|i: int, j: int| 0 <= i < j < init.len() implies (#[trigger] init[i]).0 != (
        #[trigger] init[j]).0 by {
            assert(pairs[i].0 != pairs[j].0);
        }
        lemma_pairs(init);
        assert forall|i: int| 0 <= i < pairs.len() implies pairs_map(pairs).contains_key(
            (#[trigger] pairs[i]).0,
        ) && pairs_map(pairs)[pairs[i].0] == pairs[i].1 by {
            if i < init.len() {
                assert(init[i] == pairs[i]);
                assert(pairs[i].0 != pairs[pairs.len() - 1].0);
            }
        }
        assert forall|k: Seq<char>| #[trigger] pairs_map(pairs).contains_key(k) implies exists|
            i: int,
        | 0 <= i < pairs.len() && (#[trigger] pairs[i]).0 == k by {
            if k == pairs.last().0 {
                assert(pairs[pairs.len() - 1].0 == k);
            } else {
                assert(pairs_map(init).contains_key(k));
                let i = choose|i: int| 0 <= i < init.len() && (#[trigger] init[i]).0 == k;
                assert(pairs[i].0 == k);
            }
        }
    }
}

pub proof fn lemma_remove<V>(pairs: Seq<(Seq<char>, V)>, i: int)
    requires
        distinct_keys(pairs),
        0 <= i < pairs.len(),
    ensures
        distinct_keys(pairs.remove(i)),
        pairs_map(pairs.remove(i)) == pairs_map(pairs).remove(pairs[i].0),
        forall|j: int|
            0 <= j < pairs.len() - 1 ==> (#[trigger] pairs.remove(i)[j]).0 != pairs[i].0,
    decreases pairs.len(),
{
    let rest = pairs.remove(i);
    assert forall|j: int| 0 <= j < pairs.len() - 1 implies (#[trigger] rest[j]).0
        != pairs[i].0 by {
        if j < i {
            assert(rest[j] == pairs[j]);
        } else {
            assert(rest[j] == pairs[j + 1]);
        }
    }
    assert forall|j: int, k: int| 0 <= j < k < rest.len() implies (#[trigger] rest[j]).0 != (
    #[trigger] rest[k]).0 by {
        let a = if j < i {
            j
        } else {
            j + 1
        };
        let b = if k < i {
            k
        } else {
            k + 1
        };
        assert(rest[j] == pairs[a] && rest[k] == pairs[b]);
    }
    let init = pairs.drop_last();
    assert forall|j: int, k: int| 0 <= j < k < init.len() implies (#[trigger] init[j]).0 != (
    #[trigger] init[k]).0 by {
        assert(pairs[j].0 != pairs[k].0);
    }
    if i == pairs.len() - 1 {
        assert(rest == init);
        lemma_pairs(init);
        if pairs_map(init).contains_key(pairs[i].0) {
            let j = choose|j: int| 0 <= j < init.len() && (#[trigger] init[j]).0 == pairs[i].0;
            assert(pairs[j].0 == pairs[i].0);
        }
        assert(pairs_map(rest) == pairs_map(pairs).remove(pairs[i].0));
    } else {
        lemma_remove(init, i);
        assert(rest.drop_last() == init.remove(i));
        assert(rest.last() == pairs.last());
        assert(pairs[i].0 != pairs[pairs.len() - 1].0);
        assert(pairs_map(rest) == pairs_map(pairs).remove(pairs[i].0));
    }
}

/// The form in which a phrase is looked up: lower case, with single spaces
/// between the words.
pub open spec fn normalized(s: Seq<char>) -> Seq<char> {
    joined(words(lowercase(s)), " "@)
}

/// Parameters: the plan's id, the time, the plan as JSON.
pub const STORE_PLAN_SQL: &'static str = "INSERT INTO intents (id, created_at, plan_json, use_count) VALUES (?1, ?2, ?3, 0) ON CONFLICT(id) DO UPDATE SET plan_json = excluded.plan_json";

/// Parameters: the phrase, the intent id.
pub const STORE_PHRASE_SQL: &'static str = "INSERT OR REPLACE INTO phrases (phrase, intent_id) VALUES (?1, ?2)";

/// Parameters: the time, the phrase.
pub const COUNT_USE_SQL: &'static str = "UPDATE intents SET use_count = use_count + 1, last_used_at = ?1 WHERE id = (SELECT intent_id FROM phrases WHERE phrase = ?2)";

/// Parameter: the phrase.
pub const DELETE_PHRASE_SQL: &'static str = "DELETE FROM phrases WHERE phrase = ?1";

/// One change of the database.
pub enum SqlWrite {
    /// Store a plan under its id. A plan that is stored already is replaced and
    /// keeps the time at which it was first stored.
    StorePlan { created_at: String, plan: Plan },
    /// Let a phrase, in its normal form, lead to an intent.
    StorePhrase { phrase: String, intent_id: String },
    /// Count one more use of the intent that a phrase leads to.
    CountUse { at: String, phrase: String },
    /// Forget a phrase.
    DeletePhrase { phrase: String },
}

/// The model of a `SqlWrite`.
pub enum WriteView {
    StorePlan { created_at: Seq<char>, plan: PlanView },
    StorePhrase { phrase: Seq<char>, intent_id: Seq<char> },
    CountUse { at: Seq<char>, phrase: Seq<char> },
    DeletePhrase { phrase: Seq<char> },
}

impl View for SqlWrite {
    type V = WriteView;

    open spec fn view(&self) -> WriteView {
        match *self {
            SqlWrite::StorePlan { created_at, plan } => WriteView::StorePlan {
                created_at: created_at@,
                plan: plan@,
            },
            SqlWrite::StorePhrase { phrase, intent_id } => WriteView::StorePhrase {
                phrase: phrase@,
                intent_id: intent_id@,
            },
            SqlWrite::CountUse { at, phrase } => WriteView::CountUse { at: at@, phrase: phrase@ },
            SqlWrite::DeletePhrase { phrase } => WriteView::DeletePhrase { phrase: phrase@ },
        }
    }
}

/// The models of a list of writes.
pub open spec fn write_views(writes: Seq<SqlWrite>) -> Seq<WriteView> {
    writes.map_values(|w: SqlWrite| w@)
}

impl Clone for SqlWrite {
    fn clone(&self) -> (r: SqlWrite)
        ensures
            r@ == self@,
    {
        match self {
            SqlWrite::StorePlan { created_at, plan } => SqlWrite::StorePlan {
                created_at: created_at.clone(),
                plan: plan.clone(),
            },
            SqlWrite::StorePhrase { phrase, intent_id } => SqlWrite::StorePhrase {
                phrase: phrase.clone(),
                intent_id: intent_id.clone(),
            },
            SqlWrite::CountUse { at, phrase } => SqlWrite::CountUse {
                at: at.clone(),
                phrase: phrase.clone(),
            },
            SqlWrite::DeletePhrase { phrase } => SqlWrite::DeletePhrase { phrase: phrase.clone() },
        }
    }
}

/// A copy of a list of writes.
pub fn copy_writes(writes: &Vec<SqlWrite>) -> (out: Vec<SqlWrite>)
    ensures
        write_views(out@) == write_views(writes@),
{
    let mut out: Vec<SqlWrite> = Vec::new();
    let ghost all = write_views(writes@);
    for i in 0..writes.len()
        invariant
            all == write_views(writes@),
            write_views(out@) == all.take(i as int),
    {
        let ghost before = write_views(out@);
        let write = writes[i].clone();
        out.push(write);
        assert(write_views(out@) == before.push(write@));
        assert(all.take(i + 1) == before.push(all[i as int]));
    }
    assert(all.take(writes@.len() as int) == all);
    out
}

impl WriteView {
    /// The statement that makes the change.
    pub open spec fn statement(self) -> Seq<char> {
        match self {
            WriteView::StorePlan { .. } => STORE_PLAN_SQL@,
            WriteView::StorePhrase { .. } => STORE_PHRASE_SQL@,
            WriteView::CountUse { .. } => COUNT_USE_SQL@,
            WriteView::DeletePhrase { .. } => DELETE_PHRASE_SQL@,
        }
    }
}

impl SqlWrite {
    /// The statement that makes the change.
    pub fn statement(&self) -> (sql: &'static str)
        ensures
            sql@ == self@.statement(),
    {
        match self {
            SqlWrite::StorePlan { .. } => STORE_PLAN_SQL,
            SqlWrite::StorePhrase { .. } => STORE_PHRASE_SQL,
            SqlWrite::CountUse { .. } => COUNT_USE_SQL,
            SqlWrite::DeletePhrase { .. } => DELETE_PHRASE_SQL,
        }
    }
}

impl BankView {
    /// What is stored under a phrase.
    pub open spec fn lookup(self, phrase: Seq<char>) -> Result<Option<PlanView>, Seq<char>> {
        let norm = normalized(phrase);
        if self.phrases.contains_key(norm) && self.intents.contains_key(self.phrases[norm]) {
            match self.intents[self.phrases[norm]] {
                Ok(plan) => Ok(Some(plan)),
                Err(message) => Err(message),
            }
        } else {
            Ok(None)
        }
    }

    /// The bank after a change.
    pub open spec fn after(self, write: WriteView) -> BankView {
        match write {
            WriteView::StorePlan { plan, .. } => BankView {
                intents: self.intents.insert(plan.id, Ok(plan)),
                ..self
            },
            WriteView::StorePhrase { phrase, intent_id } => BankView {
                phrases: self.phrases.insert(phrase, intent_id),
                ..self
            },
            WriteView::CountUse { .. } => self,
            WriteView::DeletePhrase { phrase } => BankView {
                phrases: self.phrases.remove(phrase),
                ..self
            },
        }
    }

    /// The bank after some changes, in order.
    pub open spec fn after_all(self, writes: Seq<WriteView>) -> BankView
        decreases writes.len(),
    {
        if writes.len() == 0 {
            self
        } else {
            self.after_all(writes.drop_last()).after(writes.last())
        }
    }

    /// A change touches a row.
    pub open spec fn touched_by(self, write: WriteView) -> bool {
        match write {
            WriteView::StorePlan { .. } => true,
            WriteView::StorePhrase { .. } => true,
            WriteView::CountUse { phrase, .. } => self.phrases.contains_key(phrase)
                && self.intents.contains_key(self.phrases[phrase]),
            WriteView::DeletePhrase { phrase } => self.phrases.contains_key(phrase),
        }
    }
}

/// The changes that store a plan under some phrases.
pub open spec fn remember_writes(
    phrases: Seq<Seq<char>>,
    plan: PlanView,
    now: Seq<char>,
) -> Seq<WriteView> {
    seq![WriteView::StorePlan { created_at: now, plan }] + phrases.map_values(
        |p: Seq<char>| WriteView::StorePhrase { phrase: normalized(p), intent_id: plan.id },
    )
}

/// What a phrase led to.
pub struct Recall {
    pub plan: Plan,
    /// Counts the use.
    pub write: SqlWrite,
}

impl MemoryBank {
    /// No phrase and no intent id occurs twice.
    pub open spec fn wf(&self) -> bool {
        distinct_keys(phrase_pairs(self.phrases@)) && distinct_keys(intent_pairs(self.intents@))
    }

    /// A bank that holds nothing.
    pub fn new() -> (bank: MemoryBank)
        ensures
            bank.wf(),
            bank@ == (BankView { phrases: Map::empty(), intents: Map::empty() }),
    {
        MemoryBank { phrases: Vec::new(), intents: Vec::new() }
    }

    /// The normal form of a phrase: lower case, trimmed, with single spaces.
    pub fn normalize(s: &str) -> (out: String)
        ensures
            out@ == normalized(s@),
    {
        let lower = s.to_lowercase();
        let list = text::split_whitespace(&chars_of(lower.as_str()));
        let mut parts: Vec<String> = Vec::new();
        let ghost all = char_lists(list@);
        for i in 0..list.len()
            invariant
                all == char_lists(list@),
                texts(parts@) == all.take(i as int),
        {
            let ghost before = texts(parts@);
            let word = string_of(&list[i]);
            parts.push(word);
            assert(texts(parts@) == before.push(word@));
            assert(all.take(i + 1) == before.push(all[i as int]));
        }
        assert(all.take(all.len() as int) == all);
        text::join(&parts, " ")
    }

    fn phrase_row(&self, norm: &str) -> (r: Option<usize>)
        requires
            self.wf(),
        ensures
            match r {
                Some(i) => i < self.phrases@.len() && self.phrases@[i as int].phrase@ == norm@
                    && self@.phrases.contains_key(norm@) && self@.phrases[norm@]
                    == self.phrases@[i as int].intent_id@,
                None => !self@.phrases.contains_key(norm@),
            },
    {
        let ghost pairs = phrase_pairs(self.phrases@);
        proof {
            lemma_pairs(pairs);
        }
        for i in 0..self.phrases.len()
            invariant
                pairs == phrase_pairs(self.phrases@),
                forall|j: int| 0 <= j < i ==> (#[trigger] pairs[j]).0 != norm@,
                forall|j: int|
                    0 <= j < pairs.len() ==> pairs_map(pairs).contains_key((#[trigger] pairs[j]).0)
                        && pairs_map(pairs)[pairs[j].0] == pairs[j].1,
        {
            assert(pairs[i as int].0 == self.phrases@[i as int].phrase@);
            if text::same(self.phrases[i].phrase.as_str(), norm) {
                return Some(i);
            }
        }
        None
    }

    fn intent_row(&self, id: &str) -> (r: Option<usize>)
        requires
            self.wf(),
        ensures
            match r {
                Some(i) => i < self.intents@.len() && self.intents@[i as int].id@ == id@
                    && self@.intents.contains_key(id@) && self@.intents[id@] == stored(
                    self.intents@[i as int].plan,
                ),
                None => !self@.intents.contains_key(id@),
            },
    {
        let ghost pairs = intent_pairs(self.intents@);
        proof {
            lemma_pairs(pairs);
        }
        for i in 0..self.intents.len()
            invariant
                pairs == intent_pairs(self.intents@),
                forall|j: int| 0 <= j < i ==> (#[trigger] pairs[j]).0 != id@,
                forall|j: int|
                    0 <= j < pairs.len() ==> pairs_map(pairs).contains_key((#[trigger] pairs[j]).0)
                        && pairs_map(pairs)[pairs[j].0] == pairs[j].1,
        {
            assert(pairs[i as int].0 == self.intents@[i as int].id@);
            if text::same(self.intents[i].id.as_str(), id) {
                return Some(i);
            }
        }
        None
    }

    /// The plan under a phrase, with the change that counts this use of it at
    /// the time `now`. An error where what is stored is no plan.
    pub fn lookup_phrase_at(&self, phrase: &str, now: &str) -> (r: Result<Option<Recall>, String>)
        requires
            self.wf(),
        ensures
            match r {
                Ok(Some(recall)) => self@.lookup(phrase@) == Ok::<Option<PlanView>, Seq<char>>(
                    Some(recall.plan@),
                ) && recall.write@ == (WriteView::CountUse {
                    at: now@,
                    phrase: normalized(phrase@),
                }),
                Ok(None) => self@.lookup(phrase@) == Ok::<Option<PlanView>, Seq<char>>(None),
                Err(message) => self@.lookup(phrase@) == Err::<Option<PlanView>, Seq<char>>(
                    message@,
                ),
            },
    {
        let norm = MemoryBank::normalize(phrase);
        match self.phrase_row(norm.as_str()) {
            Some(i) => {
                match self.intent_row(self.phrases[i].intent_id.as_str()) {
                    Some(k) => {
                        match &self.intents[k].plan {
                            Ok(plan) => Ok(
                                Some(
                                    Recall {
                                        plan: plan.clone(),
                                        write: SqlWrite::CountUse {
                                            at: now.to_string(),
                                            phrase: norm,
                                        },
                                    },
                                ),
                            ),
                            Err(message) => Err(message.clone()),
                        }
                    },
                    None => Ok(None),
                }
            },
            None => Ok(None),
        }
    }

    /// The plan under a phrase, with the change that counts this use of it now.
    pub fn lookup_phrase(&self, phrase: &str) -> (r: Result<Option<Recall>, String>)
        requires
            self.wf(),
        ensures
            match r {
                Ok(Some(recall)) => self@.lookup(phrase@) == Ok::<Option<PlanView>, Seq<char>>(
                    Some(recall.plan@),
                ) && recall.write@ is CountUse && recall.write@->CountUse_phrase == normalized(
                    phrase@,
                ) && utc_moment(recall.write@->CountUse_at),
                Ok(None) => self@.lookup(phrase@) == Ok::<Option<PlanView>, Seq<char>>(None),
                Err(message) => self@.lookup(phrase@) == Err::<Option<PlanView>, Seq<char>>(
                    message@,
                ),
            },
    {
        self.lookup_phrase_at(phrase, fresh::now().as_str())
    }

    /// The phrases that lead to a plan, each once.
    pub fn all_phrases(&self) -> (out: Vec<String>)
        requires
            self.wf(),
        ensures
            texts(out@).no_duplicates(),
            forall|p: Seq<char>| texts(out@).contains(p) <==> self@.phrases.contains_key(p),
    {
        let mut out: Vec<String> = Vec::new();
        let ghost pairs = phrase_pairs(self.phrases@);
        for i in 0..self.phrases.len()
            invariant
                pairs == phrase_pairs(self.phrases@),
                texts(out@).len() == i,
                forall|j: int| 0 <= j < i ==> #[trigger] texts(out@)[j] == pairs[j].0,
        {
            let ghost before = texts(out@);
            let phrase = self.phrases[i].phrase.clone();
            out.push(phrase);
            assert(texts(out@) == before.push(phrase@));
        }
        proof {
            lemma_pairs(pairs);
            let all = texts(out@);
            assert forall|p: Seq<char>| all.contains(p) <==> self@.phrases.contains_key(p) by {
                if all.contains(p) {
                    let j = choose|j: int| 0 <= j < all.len() && all[j] == p;
                    assert(pairs[j].0 == p);
                }
                if self@.phrases.contains_key(p) {
                    let j = choose|j: int| 0 <= j < pairs.len() && (#[trigger] pairs[j]).0 == p;
                    assert(all[j] == p);
                }
            }
            assert forall|i: int, j: int|
                0 <= i < all.len() && 0 <= j < all.len() && i != j implies all[i] != all[j] by {
                assert(all[i] == pairs[i].0 && all[j] == pairs[j].0);
            }
        }
        out
    }

    /// The changes that store a plan under some phrases at the time `now`.
    pub fn remember_at(phrases: &Vec<String>, plan: &Plan, now: &str) -> (writes: Vec<SqlWrite>)
        ensures
            write_views(writes@) == remember_writes(texts(phrases@), plan@, now@),
    {
        let mut writes: Vec<SqlWrite> = Vec::new();
        writes.push(SqlWrite::StorePlan { created_at: now.to_string(), plan: plan.clone() });
        let ghost wanted = remember_writes(texts(phrases@), plan@, now@);
        assert(write_views(writes@) == wanted.take(1));
        for i in 0..phrases.len()
            invariant
                wanted == remember_writes(texts(phrases@), plan@, now@),
                write_views(writes@) == wanted.take(i + 1),
        {
            let ghost before = write_views(writes@);
            let write = SqlWrite::StorePhrase {
                phrase: MemoryBank::normalize(phrases[i].as_str()),
                intent_id: plan.id.clone(),
            };
            assert(texts(phrases@)[i as int] == phrases@[i as int]@);
            writes.push(write);
            assert(write_views(writes@) == before.push(write@));
            assert(wanted.take(i + 2) == before.push(wanted[i + 1]));
        }
        assert(wanted.take(phrases@.len() as int + 1) == wanted);
        writes
    }

    /// The changes that store a plan under some phrases now.
    pub fn remember(phrases: &Vec<String>, plan: &Plan) -> (writes: Vec<SqlWrite>)
        ensures
            exists|now: Seq<char>|
                utc_moment(now) && write_views(writes@) == remember_writes(
                    texts(phrases@),
                    plan@,
                    now,
                ),
    {
        let now = fresh::now();
        MemoryBank::remember_at(phrases, plan, now.as_str())
    }

    /// The change that forgets a phrase. `apply` tells whether it was known.
    pub fn forget(phrase: &str) -> (write: SqlWrite)
        ensures
            write@ == (WriteView::DeletePhrase { phrase: normalized(phrase@) }),
    {
        SqlWrite::DeletePhrase { phrase: MemoryBank::normalize(phrase) }
    }

    fn drop_phrase(&mut self, norm: &str) -> (known: bool)
        requires
            old(self).wf(),
        ensures
            final(self).wf(),
            known == old(self)@.phrases.contains_key(norm@),
            final(self)@.phrases == old(self)@.phrases.remove(norm@),
            final(self).intents == old(self).intents,
            forall|j: int|
                0 <= j < final(self).phrases@.len() ==> (
                #[trigger] final(self).phrases@[j]).phrase@ != norm@,
    {
        let ghost pairs = phrase_pairs(self.phrases@);
        let ghost before = *self;
        match self.phrase_row(norm) {
            Some(i) => {
                proof {
                    lemma_remove(pairs, i as int);
                }
                self.phrases.remove(i);
                proof {
                    assert(phrase_pairs(self.phrases@) == pairs.remove(i as int));
                    assert forall|j: int| 0 <= j < self.phrases@.len() implies (
                    #[trigger] self.phrases@[j]).phrase@ != norm@ by {
                        assert(phrase_pairs(self.phrases@)[j].0 == self.phrases@[j].phrase@);
                    }
                }
                true
            },
            None => {
                proof {
                    lemma_pairs(pairs);
                    assert forall|j: int| 0 <= j < self.phrases@.len() implies (
                    #[trigger] self.phrases@[j]).phrase@ != norm@ by {
                        assert(pairs[j].0 == self.phrases@[j].phrase@);
                    }
                    assert(before@.phrases.remove(norm@) == before@.phrases);
                }
                false
            },
        }
    }

    /// Stores what the database holds under an intent id.
    pub fn store_intent(&mut self, id: &str, plan: Result<Plan, String>)
        requires
            old(self).wf(),
        ensures
            final(self).wf(),
            final(self)@ == (BankView {
                intents: old(self)@.intents.insert(id@, stored(plan)),
                ..old(self)@
            }),
    {
        let ghost before = *self;
        let ghost pairs = intent_pairs(self.intents@);
        match self.intent_row(id) {
            Some(i) => {
                proof {
                    lemma_remove(pairs, i as int);
                }
                self.intents.remove(i);
                assert(intent_pairs(self.intents@) == pairs.remove(i as int));
            },
            None => {
                proof {
                    lemma_pairs(pairs);
                    assert(before@.intents.remove(id@) == before@.intents);
                }
            },
        }
        let ghost kept = intent_pairs(self.intents@);
        assert(pairs_map(kept) == before@.intents.remove(id@));
        proof {
            lemma_pairs(kept);
        }
        let ghost value = stored(plan);
        self.intents.push(IntentRow { id: id.to_string(), plan });
        proof {
            let now = intent_pairs(self.intents@);
            assert(now == kept.push((id@, value)));
            assert(now.drop_last() == kept);
            assert forall|i: int, j: int| 0 <= i < j < now.len() implies (#[trigger] now[i]).0 != (
            #[trigger] now[j]).0 by {
                if j == kept.len() {
                    assert(kept[i] == now[i]);
                    assert(pairs_map(kept).contains_key(kept[i].0));
                } else {
                    assert(kept[i].0 != kept[j].0);
                }
            }
            assert(self@.intents == before@.intents.insert(id@, value));
        }
    }

    /// Makes a change. Tells whether it touched a row.
    pub fn apply(&mut self, write: &SqlWrite) -> (touched: bool)
        requires
            old(self).wf(),
        ensures
            final(self).wf(),
            final(self)@ == old(self)@.after(write@),
            touched == old(self)@.touched_by(write@),
    {
        match write {
            SqlWrite::StorePlan { plan, .. } => {
                let id = plan.id.clone();
                self.store_intent(id.as_str(), Ok(plan.clone()));
                true
            },
            SqlWrite::StorePhrase { phrase, intent_id } => {
                let ghost before = *self;
                self.drop_phrase(phrase.as_str());
                let ghost kept = phrase_pairs(self.phrases@);
                self.phrases.push(
                    PhraseRow { phrase: phrase.clone(), intent_id: intent_id.clone() },
                );
                proof {
                    let now = phrase_pairs(self.phrases@);
                    assert(now == kept.push((phrase@, intent_id@)));
                    assert(now.drop_last() == kept);
                    assert forall|i: int, j: int| 0 <= i < j < now.len() implies (
                    #[trigger] now[i]).0 != (#[trigger] now[j]).0 by {
                        if j == kept.len() {
                            assert(now[i].0 == self.phrases@[i].phrase@);
                        } else {
                            assert(kept[i].0 != kept[j].0);
                        }
                    }
                    assert(self@.phrases == before@.phrases.insert(phrase@, intent_id@));
                }
                true
            },
            SqlWrite::CountUse { phrase, .. } => {
                match self.phrase_row(phrase.as_str()) {
                    Some(i) => self.intent_row(self.phrases[i].intent_id.as_str()).is_some(),
                    None => false,
                }
            },
            SqlWrite::DeletePhrase { phrase } => self.drop_phrase(phrase.as_str()),
        }
    }
}

proof fn lemma_remembered(
    bank: BankView,
    phrases: Seq<Seq<char>>,
    plan: PlanView,
    now: Seq<char>,
    n: int,
)
    requires
        0 <= n <= phrases.len(),
    ensures
        ({
            let after = bank.after_all(remember_writes(phrases, plan, now).take(n + 1));
            &&& after.intents == bank.intents.insert(plan.id, Ok(plan))
            &&& forall|i: int|
                0 <= i < n ==> after.phrases.contains_key(normalized(#[trigger] phrases[i]))
                    && after.phrases[normalized(phrases[i])] == plan.id
            &&& forall|k: Seq<char>|
                (forall|i: int| 0 <= i < n ==> normalized(#[trigger] phrases[i]) != k) ==> (
                #[trigger] after.phrases.contains_key(k) == bank.phrases.contains_key(k))
                    && after.phrases[k] == bank.phrases[k]
        }),
    decreases n,
{
    let writes = remember_writes(phrases, plan, now);
    if n == 0 {
        assert(writes.take(1).drop_last() == Seq::<WriteView>::empty());
        assert(writes.take(1).last() == WriteView::StorePlan { created_at: now, plan });
        assert(bank.after_all(Seq::<WriteView>::empty()) == bank);
    } else {
        lemma_remembered(bank, phrases, plan, now, n - 1);
        assert(writes.take(n + 1).drop_last() == writes.take(n));
        assert(writes.take(n + 1).last() == WriteView::StorePhrase {
            phrase: normalized(phrases[n - 1]),
            intent_id: plan.id,
        });
    }
}

/// A plan that was remembered is found again, under every phrase that has the
/// normal form of one of its phrases.
pub proof fn law_remembered_plan_is_found(
    bank: BankView,
    phrases: Seq<Seq<char>>,
    plan: PlanView,
    now: Seq<char>,
    i: int,
    phrase: Seq<char>,
)
    requires
        0 <= i < phrases.len(),
        normalized(phrase) == normalized(phrases[i]),
    ensures
        bank.after_all(remember_writes(phrases, plan, now)).lookup(phrase) == Ok::<
            Option<PlanView>,
            Seq<char>,
        >(Some(plan)),
{
    let writes = remember_writes(phrases, plan, now);
    lemma_remembered(bank, phrases, plan, now, phrases.len() as int);
    assert(writes.take(phrases.len() as int + 1) == writes);
}

/// Remembering a plan changes nothing for the other phrases, unless they lead
/// to a plan with the same id.
pub proof fn law_remembering_keeps_other_phrases(
    bank: BankView,
    phrases: Seq<Seq<char>>,
    plan: PlanView,
    now: Seq<char>,
    phrase: Seq<char>,
)
    requires
        forall|i: int|
            0 <= i < phrases.len() ==> normalized(#[trigger] phrases[i]) != normalized(phrase),
        bank.phrases.contains_key(normalized(phrase)) ==> bank.phrases[normalized(phrase)]
            != plan.id,
    ensures
        bank.after_all(remember_writes(phrases, plan, now)).lookup(phrase) == bank.lookup(phrase),
{
    let writes = remember_writes(phrases, plan, now);
    lemma_remembered(bank, phrases, plan, now, phrases.len() as int);
    assert(writes.take(phrases.len() as int + 1) == writes);
    let after = bank.after_all(writes);
    assert(after.phrases.contains_key(normalized(phrase)) == bank.phrases.contains_key(
        normalized(phrase),
    ));
}

/// A phrase that was forgotten leads nowhere, and neither does any other with
/// the same normal form; every other phrase leads where it led.
pub proof fn law_forgotten_phrase_is_gone(bank: BankView, phrase: Seq<char>, other: Seq<char>)
    ensures
        ({
            let after = bank.after(WriteView::DeletePhrase { phrase: normalized(phrase) });
            if normalized(other) == normalized(phrase) {
                after.lookup(other) == Ok::<Option<PlanView>, Seq<char>>(None)
            } else {
                after.lookup(other) == bank.lookup(other)
            }
        }),
{
}

/// Looking a phrase up changes no lookup.
pub proof fn law_lookup_changes_nothing(bank: BankView, phrase: Seq<char>, at: Seq<char>)
    ensures
        bank.after(WriteView::CountUse { at, phrase }) == bank,
{
}

/// The normal form of a phrase has the words of the phrase in lower case, and
/// nothing else.
pub proof fn law_normal_form_keeps_the_words(phrase: Seq<char>)
    ensures
        words(normalized(phrase)) == words(lowercase(phrase)),
{
    lemma_words(lowercase(phrase));
    lemma_words_joined(words(lowercase(phrase)));
}

/// A normal form that is in lower case is its own normal form.
pub proof fn law_normal_form_is_stable(phrase: Seq<char>)
    requires
        lowercase(normalized(phrase)) == normalized(phrase),
    ensures
        normalized(normalized(phrase)) == normalized(phrase),
{
    law_normal_form_keeps_the_words(phrase);
}

/// The normal form of an ASCII phrase is in lower case, and so is its own
/// normal form.
pub proof fn law_ascii_normal_form_is_lower_case(phrase: Seq<char>)
    requires
        is_ascii_text(phrase),
    ensures
        lowercase(normalized(phrase)) == normalized(phrase),
        normalized(normalized(phrase)) == normalized(phrase),
{
    let lower = lowercase(phrase);
    let parts = words(lower);
    let norm = normalized(phrase);
    lemma_words(lower);
    assert forall|i: int| 0 <= i < norm.len() implies #[trigger] norm[i] <= '\u{7f}' && ascii_lower(
        norm[i],
    ) == norm[i] by {
        lemma_joined_chars(parts, " "@, i);
        reveal_strlit(" ");
        if " "@.contains(norm[i]) {
            let k = choose|k: int| 0 <= k < " "@.len() && " "@[k] == norm[i];
            assert(" "@[k] == ' ');
        } else {
            let (j, k) = choose|j: int, k: int|
                0 <= j < parts.len() && 0 <= k < parts[j].len() && #[trigger] parts[j][k]
                    == norm[i];
            assert(lower.contains(parts[j][k]));
            let m = choose|m: int| 0 <= m < lower.len() && lower[m] == norm[i];
            assert(lower[m] == ascii_lower(phrase[m]));
            assert(phrase[m] <= '\u{7f}');
        }
    }
    assert(lowercase(norm) == norm);
    law_normal_form_is_stable(phrase);
}

/// A phrase is looked up by its normal form alone, and counted and forgotten
/// under it.
pub proof fn law_phrases_are_looked_up_by_their_normal_form(
    bank: BankView,
    a: Seq<char>,
    b: Seq<char>,
)
    requires
        normalized(a) == normalized(b),
    ensures
        bank.lookup(a) == bank.lookup(b),
{
}

/// A normal form has one space between words and no other whitespace: it is its
/// words, joined.
pub proof fn law_normal_forms_have_single_spaces(phrase: Seq<char>)
    ensures
        joined(words(normalized(phrase)), seq![' ']) == normalized(phrase),
        forall|i: int|
            0 <= i < normalized(phrase).len() && whitespace(#[trigger] normalized(phrase)[i])
                ==> normalized(phrase)[i] == ' ' && 0 < i < normalized(phrase).len() - 1
                && !whitespace(normalized(phrase)[i - 1]) && !whitespace(normalized(phrase)[i + 1]),
{
    law_normal_form_keeps_the_words(phrase);
    reveal_strlit(" ");
    assert(" "@ == seq![' ']);
    let parts = words(lowercase(phrase));
    lemma_words(lowercase(phrase));
    lemma_spaces_in_joined(parts);
}

proof fn lemma_spaces_in_joined(parts: Seq<Seq<char>>)
    requires
        forall|i: int|
            0 <= i < parts.len() ==> (#[trigger] parts[i]).len() > 0 && no_whitespace(parts[i]),
    ensures
        ({
            let s = joined(parts, seq![' ']);
            &&& forall|i: int|
                0 <= i < s.len() && whitespace(#[trigger] s[i]) ==> s[i] == ' ' && 0 < i < s.len()
                    - 1 && !whitespace(s[i - 1]) && !whitespace(s[i + 1])
            &&& parts.len() > 0 ==> s.len() > 0 && !whitespace(s.last())
        }),
    decreases parts.len(),
{
    let sep = seq![' '];
    let s = joined(parts, sep);
    if parts.len() == 1 {
        assert(no_whitespace(parts[0]));
    } else if parts.len() > 1 {
        let init = parts.drop_last();
        assert forall|i: int| 0 <= i < init.len() implies (#[trigger] init[i]).len() > 0
            && no_whitespace(init[i]) by {
            assert(init[i] == parts[i]);
        }
        lemma_spaces_in_joined(init);
        let lead = joined(init, sep);
        let last = parts[parts.len() - 1];
        assert(no_whitespace(last));
        assert(s == lead + sep + last);
        let n = lead.len() as int;
        assert(s[n] == ' ' && s[n - 1] == lead.last() && s[n + 1] == last[0]);
        assert forall|i: int| 0 <= i < s.len() && whitespace(#[trigger] s[i]) implies s[i] == ' '
            && 0 < i < s.len() - 1 && !whitespace(s[i - 1]) && !whitespace(s[i + 1]) by {
            if i < n {
                assert(s[i] == lead[i]);
                assert(lead[i - 1] == s[i - 1] && lead[i + 1] == s[i + 1]);
            } else if i > n {
                assert(s[i] == last[i - n - 1]);
            }
        }
        assert(s.last() == last.last());
        assert(!whitespace(last[last.len() - 1]));
    }
}

/// Case and spacing play no part: ASCII phrases that differ only in case have
/// one normal form, and so have phrases with the same words.
pub proof fn law_case_and_spacing_play_no_part(a: Seq<char>, b: Seq<char>)
    ensures
        is_ascii_text(a) && text::same_ascii_case(a, b) && is_ascii_text(b) ==> normalized(a)
            == normalized(b),
        words(lowercase(a)) == words(lowercase(b)) ==> normalized(a) == normalized(b),
{
}

/// A change tells whether it made a difference: forgetting touches a row
/// exactly if the phrase led somewhere, and counting exactly if it leads to
/// something stored.
pub proof fn law_changes_tell_whether_they_made_a_difference(
    bank: BankView,
    phrase: Seq<char>,
    at: Seq<char>,
)
    ensures
        bank.touched_by((WriteView::DeletePhrase { phrase: normalized(phrase) }))
            <==> bank.phrases.contains_key(normalized(phrase)),
        bank.touched_by((WriteView::DeletePhrase { phrase: normalized(phrase) })) <==> bank.after(
            (WriteView::DeletePhrase { phrase: normalized(phrase) }),
        ).phrases != bank.phrases,
        bank.touched_by((WriteView::CountUse { at, phrase: normalized(phrase) })) <==> bank.lookup(
            phrase,
        ) != Ok::<Option<PlanView>, Seq<char>>(None),
        !bank.after((WriteView::DeletePhrase { phrase: normalized(phrase) })).touched_by(
            (WriteView::DeletePhrase { phrase: normalized(phrase) }),
        ),
{
    let norm = normalized(phrase);
    if bank.phrases.contains_key(norm) {
        assert(!bank.phrases.remove(norm).contains_key(norm));
    } else {
        assert(bank.phrases.remove(norm) == bank.phrases);
    }
}

/// A plan is remembered by one change for the plan, which comes first and
/// carries the time, and one for each phrase, in order and in normal form, that
/// leads to the plan.
pub proof fn law_remembering_stores_the_plan_and_its_phrases(
    phrases: Seq<Seq<char>>,
    plan: PlanView,
    now: Seq<char>,
    i: int,
)
    requires
        0 <= i < phrases.len(),
    ensures
        ({
            let writes = remember_writes(phrases, plan, now);
            &&& writes.len() == phrases.len() + 1
            &&& writes[0] == (WriteView::StorePlan { created_at: now, plan })
            &&& writes[i + 1] == (WriteView::StorePhrase {
                phrase: normalized(phrases[i]),
                intent_id: plan.id,
            })
        }),
{
}

/// Each change is made by a statement on its own table, and one that is about a
/// phrase is limited to that phrase.
pub proof fn law_statements_fit_their_changes(write: WriteView)
    ensures
        write is StorePlan ==> has_prefix(write.statement(), "INSERT INTO intents "@) && has_text(
            write.statement(),
            "ON CONFLICT(id) DO UPDATE SET plan_json = excluded.plan_json"@,
        ),
        write is StorePhrase ==> has_prefix(write.statement(), "INSERT OR REPLACE INTO phrases "@),
        write is CountUse ==> has_prefix(
            write.statement(),
            "UPDATE intents SET use_count = use_count + 1, last_used_at = ?1 WHERE id = "@,
        ) && has_text(write.statement(), "FROM phrases WHERE phrase = ?2"@),
        write is DeletePhrase ==> write.statement() == "DELETE FROM phrases WHERE phrase = ?1"@,
{
    match write {
        WriteView::StorePlan { .. } => lemma_store_plan_sql(),
        WriteView::StorePhrase { .. } => lemma_store_phrase_sql(),
        WriteView::CountUse { .. } => lemma_count_use_sql(),
        WriteView::DeletePhrase { .. } => {},
    }
}

proof fn lemma_store_plan_sql()
    ensures
        has_prefix(STORE_PLAN_SQL@, "INSERT INTO intents "@),
        has_text(
            STORE_PLAN_SQL@,
            "ON CONFLICT(id) DO UPDATE SET plan_json = excluded.plan_json"@,
        ),
{
    let sql = STORE_PLAN_SQL@;
    reveal_strlit("INSERT INTO intents (id, created_at, plan_json, use_count) VALUES (?1, ?2, ?3, 0) ON CONFLICT(id) DO UPDATE SET plan_json = excluded.plan_json");
    reveal_strlit("INSERT INTO intents ");
    reveal_strlit("ON CONFLICT(id) DO UPDATE SET plan_json = excluded.plan_json");
    let tail = "ON CONFLICT(id) DO UPDATE SET plan_json = excluded.plan_json"@;
    assert(sql.subrange(0, 20) == "INSERT INTO intents "@);
    let k = sql.len() - tail.len();
    assert(sql.subrange(k, k + tail.len()) == tail);
    assert(text::occurs_at(sql, tail, k));
}

proof fn lemma_store_phrase_sql()
    ensures
        has_prefix(STORE_PHRASE_SQL@, "INSERT OR REPLACE INTO phrases "@),
{
    let sql = STORE_PHRASE_SQL@;
    reveal_strlit("INSERT OR REPLACE INTO phrases (phrase, intent_id) VALUES (?1, ?2)");
    reveal_strlit("INSERT OR REPLACE INTO phrases ");
    assert(sql.subrange(0, 31) == "INSERT OR REPLACE INTO phrases "@);
}

proof fn lemma_count_use_sql()
    ensures
        has_prefix(
            COUNT_USE_SQL@,
            "UPDATE intents SET use_count = use_count + 1, last_used_at = ?1 WHERE id = "@,
        ),
        has_text(COUNT_USE_SQL@, "FROM phrases WHERE phrase = ?2"@),
{
    let sql = COUNT_USE_SQL@;
    reveal_strlit("UPDATE intents SET use_count = use_count + 1, last_used_at = ?1 WHERE id = (SELECT intent_id FROM phrases WHERE phrase = ?2)");
    reveal_strlit("UPDATE intents SET use_count = use_count + 1, last_used_at = ?1 WHERE id = ");
    reveal_strlit("FROM phrases WHERE phrase = ?2");
    let head = "UPDATE intents SET use_count = use_count + 1, last_used_at = ?1 WHERE id = "@;
    let tail = "FROM phrases WHERE phrase = ?2"@;
    assert(sql.subrange(0, head.len() as int) == head);
    let k = sql.len() - tail.len() - 1;
    assert(sql.subrange(k, k + tail.len()) == tail);
    assert(text::occurs_at(sql, tail, k));
}

/// A phrase leads to what is stored under the id that it leads to: a plan, or
/// the error where something else is stored. One that leads nowhere, or to an
/// id that nothing is stored under, leads to nothing.
pub proof fn law_a_phrase_leads_to_what_is_stored(
    bank: BankView,
    phrase: Seq<char>,
    intent_id: Seq<char>,
    plan: PlanView,
    message: Seq<char>,
)
    ensures
        ({
            let led = BankView {
                phrases: bank.phrases.insert(normalized(phrase), intent_id),
                ..bank
            };
            &&& BankView { intents: led.intents.insert(intent_id, Ok(plan)), ..led }.lookup(phrase)
                == Ok::<Option<PlanView>, Seq<char>>(Some(plan))
            &&& BankView { intents: led.intents.insert(intent_id, Err(message)), ..led }.lookup(
                phrase,
            ) == Err::<Option<PlanView>, Seq<char>>(message)
            &&& BankView { intents: led.intents.remove(intent_id), ..led }.lookup(phrase) == Ok::<
                Option<PlanView>,
                Seq<char>,
            >(None)
            &&& BankView { phrases: bank.phrases.remove(normalized(phrase)), ..bank }.lookup(phrase)
                == Ok::<Option<PlanView>, Seq<char>>(None)
        }),
{
}

} // verus!
