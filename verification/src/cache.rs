//! The source cache: for each template path, the outcome of reading it.
//!
//! A template file is read at most once. What the first read gave, text or
//! failure, is kept for good and answers every later request for the path.
//! The cache holds up to [`MAX_ENTRIES`] outcomes and gives none up.
//! Reading the file is the caller's part: [`SourceCache::lookup`] answers
//! from the cache, and on a miss the caller reads the file and hands the
//! outcome to [`SourceCache::record`].

use crate::error::{
    attribution_view, Attribution, AttributionView, CompileError, CompileErrorView, ErrorKind,
};
use crate::text::{contains_text, occurs_at};
use vstd::prelude::*;
use vstd::string::{StrSliceExecFns, StringExecFns};

verus! {

#[verifier::external_type_specification]
#[verifier::external_body]
#[verifier::reject_recursive_types(Key)]
#[verifier::reject_recursive_types(Val)]
#[verifier::reject_recursive_types(We)]
#[verifier::reject_recursive_types(B)]
#[verifier::reject_recursive_types(L)]
pub struct ExCache<Key, Val, We, B, L>(quick_cache::sync::Cache<Key, Val, We, B, L>);

#[verifier::external_type_specification]
#[verifier::external_body]
pub struct ExUnitWeighter(quick_cache::UnitWeighter);

#[verifier::external_type_specification]
#[verifier::external_body]
pub struct ExDefaultHashBuilder(quick_cache::DefaultHashBuilder);

#[verifier::external_type_specification]
#[verifier::external_body]
#[verifier::reject_recursive_types(Key)]
#[verifier::reject_recursive_types(Val)]
pub struct ExDefaultLifecycle<Key, Val>(quick_cache::sync::DefaultLifecycle<Key, Val>);

/// What is kept for a path: the template's text, or the message of the
/// failure to read it.
pub type Outcome = Result<String, String>;

/// The mathematical value of an [`Outcome`].
pub type OutcomeView = Result<Seq<char>, Seq<char>>;

/// The table that holds the outcomes.
pub type Table = quick_cache::sync::Cache<String, Result<String, String>>;

/// The entries that a table holds.
pub uninterp spec fn table_entries(
    table: quick_cache::sync::Cache<String, Result<String, String>>,
) -> Map<Seq<char>, Result<Seq<char>, Seq<char>>>;

/// The weight that a table was made to hold at most.
pub uninterp spec fn table_limit(
    table: quick_cache::sync::Cache<String, Result<String, String>>,
) -> nat;

/// The value of an outcome.
pub open spec fn outcome_view(outcome: Outcome) -> OutcomeView {
    match outcome {
        Ok(text) => Ok(text@),
        Err(message) => Err(message@),
    }
}

/// Makes a table with `quick_cache::sync::Cache::with`, for an estimated
/// number of items and a weight capacity, with the unit weighter and the
/// default hasher and lifecycle. The new table holds nothing. For fewer than
/// 32 estimated items the cache is made of a single shard, so that the
/// capacity is the capacity of that shard.
#[verifier::external_body]
fn table_new(estimated_items: usize, weight_capacity: u64) -> (table: Table)
    requires
        estimated_items < 32,
    ensures
        table_entries(table).dom() =~= Set::empty(),
        table_limit(table) == weight_capacity,
{
    quick_cache::sync::Cache::with(
        estimated_items,
        weight_capacity,
        Default::default(),
        Default::default(),
        Default::default(),
    )
}

/// Calls `quick_cache::sync::Cache::get`: a copy of the value held under
/// the key, or nothing if the table holds none.
#[verifier::external_body]
fn table_get(table: &Table, path: &String) -> (r: Option<Outcome>)
    ensures
        match r {
            Some(outcome) => table_entries(*table).contains_key(path@) && table_entries(
                *table,
            )[path@] == outcome_view(outcome),
            None => !table_entries(*table).contains_key(path@),
        },
{
    table.get(path)
}

/// Calls `quick_cache::sync::Cache::len`: the number of entries that the
/// table holds.
#[verifier::external_body]
fn table_len(table: &Table) -> (n: usize)
    ensures
        n == table_entries(*table).dom().len(),
{
    table.len()
}

/// Calls `quick_cache::sync::Cache::insert`. Every entry weighs one unit,
/// and the cache gives entries up only while the weight it holds is above
/// its capacity. With a capacity of `u64::MAX` that never is so: the value
/// is held under its key, in place of the one that was there, if any, and
/// every other entry stays as it is. The cache cannot take a new entry
/// once it holds `u32::MAX - 1` of them.
#[verifier::external_body]
fn table_insert(table: &mut Table, path: String, outcome: Outcome)
    requires
        table_limit(*old(table)) == u64::MAX,
        table_entries(*old(table)).dom().finite(),
        table_entries(*old(table)).dom().len() < 0xffff_fffe,
    ensures
        table_entries(*final(table)) == table_entries(*old(table)).insert(
            path@,
            outcome_view(outcome),
        ),
        table_limit(*final(table)) == table_limit(*old(table)),
{
    table.insert(path, outcome)
}

/// The text that is kept for a file's content: the content without its
/// last character, if that is a newline.
pub open spec fn spec_normalize(content: Seq<char>) -> Seq<char> {
    if content.len() > 0 && content.last() == '\n' {
        content.drop_last()
    } else {
        content
    }
}

/// The message that is kept when the file at `path` cannot be read;
/// `reason` is the operating system's description of the failure.
pub open spec fn failure_message(path: Seq<char>, reason: Seq<char>) -> Seq<char> {
    "unable to open template file '"@ + path + "': "@ + reason
}

/// What is kept for the file at `path`, given what reading it gave: the
/// content or the description of the failure.
pub open spec fn spec_outcome(path: Seq<char>, read: OutcomeView) -> OutcomeView {
    match read {
        Ok(content) => Ok(spec_normalize(content)),
        Err(reason) => Err(failure_message(path, reason)),
    }
}

/// What a load answers from a kept outcome. A failure's message is the one
/// that was kept; its attribution is the current caller's.
pub open spec fn spec_answer(outcome: OutcomeView, attribution: Option<AttributionView>) -> Result<
    Seq<char>,
    CompileErrorView,
> {
    match outcome {
        Ok(text) => Ok(text),
        Err(message) => Err(CompileErrorView { kind: ErrorKind::Load, message, attribution }),
    }
}

/// The number of outcomes that a cache can hold.
pub const MAX_ENTRIES: usize = 0xffff_fffe;

/// Whether a cache can take one more outcome.
pub open spec fn has_room(cache: Map<Seq<char>, OutcomeView>) -> bool {
    cache.dom().finite() && cache.dom().len() < MAX_ENTRIES
}

/// The cache after the outcome of reading `path` has been handed in. Only
/// the first outcome for a path is kept, and a cache that is full keeps no
/// further one.
pub open spec fn spec_record(
    cache: Map<Seq<char>, OutcomeView>,
    path: Seq<char>,
    read: OutcomeView,
) -> Map<Seq<char>, OutcomeView> {
    if cache.contains_key(path) || !has_room(cache) {
        cache
    } else {
        cache.insert(path, spec_outcome(path, read))
    }
}

/// The answer to a load of `path` once its file has been read: from the
/// outcome that the cache holds for the path, or else from the outcome of
/// this read.
pub open spec fn spec_load(
    cache: Map<Seq<char>, OutcomeView>,
    path: Seq<char>,
    read: OutcomeView,
    attribution: Option<AttributionView>,
) -> Result<Seq<char>, CompileErrorView> {
    if cache.contains_key(path) {
        spec_answer(cache[path], attribution)
    } else {
        spec_answer(spec_outcome(path, read), attribution)
    }
}

/// The value of a load's answer.
pub open spec fn answer_view(r: Result<String, CompileError>) -> Result<Seq<char>, CompileErrorView> {
    match r {
        Ok(text) => Ok(text@),
        Err(e) => Err(e@),
    }
}

/// Strips one trailing newline.
pub fn normalize(content: String) -> (text: String)
    ensures
        text@ == spec_normalize(content@),
{
    let n: usize = content.as_str().unicode_len();
    if n > 0 && content.as_str().get_char(n - 1) == '\n' {
        proof {
            assert(content@.subrange(0, n - 1) =~= content@.drop_last());
        }
        String::from_str(content.as_str().substring_char(0, n - 1))
    } else {
        content
    }
}

/// Turns a kept outcome into a load's answer.
fn answer(outcome: Outcome, attribution: Option<Attribution>) -> (r: Result<String, CompileError>)
    ensures
        answer_view(r) == spec_answer(outcome_view(outcome), attribution_view(attribution)),
{
    match outcome {
        Ok(text) => Ok(text),
        Err(message) => Err(CompileError::new(ErrorKind::Load, message, attribution)),
    }
}

/// The number of templates that the table is first made for. It is a hint
/// and no limit: the table grows, and gives no entry up.
pub const CAPACITY_HINT: usize = 8;

/// The cache of template sources.
pub struct SourceCache {
    table: Option<Table>,
}

impl SourceCache {
    /// The outcomes that the cache holds, by path.
    pub closed spec fn view(&self) -> Map<Seq<char>, OutcomeView> {
        match self.table {
            Some(table) => table_entries(table),
            None => Map::empty(),
        }
    }

    #[verifier::type_invariant]
    spec fn unlimited(&self) -> bool {
        self.table matches Some(table) ==> table_limit(table) == u64::MAX && table_entries(
            table,
        ).dom().finite()
    }

    /// A cache that holds nothing.
    pub fn new() -> (cache: SourceCache)
        ensures
            cache@ == Map::<Seq<char>, OutcomeView>::empty(),
    {
        SourceCache { table: None }
    }

    /// Answers a load of `path` from the cache, for a caller whose reference
    /// to the template is `attribution`. Gives `None` if the file has not
    /// been read yet.
    pub fn lookup(&self, path: &String, attribution: Option<Attribution>) -> (r: Option<
        Result<String, CompileError>,
    >)
        ensures
            match r {
                Some(a) => self@.contains_key(path@) && answer_view(a) == spec_answer(
                    self@[path@],
                    attribution_view(attribution),
                ),
                None => !self@.contains_key(path@),
            },
    {
        match &self.table {
            Some(table) => match table_get(table, path) {
                Some(outcome) => Some(answer(outcome, attribution)),
                None => None,
            },
            None => None,
        }
    }

    /// Takes what reading the file at `path` gave, its content or the
    /// description of the failure, and answers the load.
    ///
    /// If the cache holds no outcome for `path` yet, the outcome of this
    /// read answers the load and is kept: the content without one trailing
    /// newline, or the failure's message. If it holds one already, that one
    /// stays and answers the load. A cache that holds [`MAX_ENTRIES`]
    /// outcomes keeps no further one.
    pub fn record(
        &mut self,
        path: &String,
        read: Result<String, String>,
        attribution: Option<Attribution>,
    ) -> (r: Result<String, CompileError>)
        ensures
            final(self)@ == spec_record(old(self)@, path@, outcome_view(read)),
            answer_view(r) == spec_load(
                old(self)@,
                path@,
                outcome_view(read),
                attribution_view(attribution),
            ),
    {
        proof {
            use_type_invariant(&*self);
        }
        let mut slot: Option<Table> = None;
        std::mem::swap(&mut self.table, &mut slot);
        let mut table = match slot {
            Some(table) => table,
            None => {
                let table = table_new(CAPACITY_HINT, u64::MAX);
                assert(table_entries(table) =~= Map::<Seq<char>, OutcomeView>::empty());
                table
            },
        };
        let r = match table_get(&table, path) {
            Some(kept) => answer(kept, attribution),
            None => {
                let outcome = match read {
                    Ok(content) => Ok(normalize(content)),
                    Err(reason) => {
                        let mut message = String::from_str("unable to open template file '");
                        message.append(path.as_str());
                        message.append("': ");
                        message.append(reason.as_str());
                        Err(message)
                    },
                };
                if table_len(&table) < MAX_ENTRIES {
                    let kept = match &outcome {
                        Ok(text) => Ok(text.clone()),
                        Err(message) => Err(message.clone()),
                    };
                    table_insert(&mut table, path.clone(), kept);
                }
                answer(outcome, attribution)
            },
        };
        self.table = Some(table);
        r
    }
}

/// A file is read at most once, as long as the cache has room: after the
/// outcome of a read has been handed in, the path is answered from the
/// cache; handing in what a later read of the same path gave changes
/// nothing; and a text that was loaded once is the answer to every later
/// load, whoever asks.
pub proof fn lemma_loaded_once(
    cache: Map<Seq<char>, OutcomeView>,
    path: Seq<char>,
    first: OutcomeView,
    second: OutcomeView,
    one: Option<AttributionView>,
    other: Option<AttributionView>,
)
    requires
        has_room(cache) || cache.contains_key(path),
    ensures
        ({
            let kept = spec_record(cache, path, first);
            let again = spec_record(kept, path, second);
            &&& kept.contains_key(path)
            &&& again == kept
            &&& spec_load(cache, path, first, one) == spec_answer(kept[path], one)
            &&& spec_load(kept, path, second, other) == spec_answer(kept[path], other)
            &&& spec_load(cache, path, first, one) is Ok ==> spec_load(kept, path, second, other)
                == spec_load(cache, path, first, one)
        }),
{
}

/// Entries are never dropped and never change: whatever is handed in for
/// any path, each path that the cache holds keeps its outcome.
pub proof fn lemma_entries_stay(
    cache: Map<Seq<char>, OutcomeView>,
    path: Seq<char>,
    read: OutcomeView,
    other: Seq<char>,
)
    requires
        cache.contains_key(other),
    ensures
        spec_record(cache, path, read).contains_key(other),
        spec_record(cache, path, read)[other] == cache[other],
{
}

/// Exactly one trailing newline is stripped: content that ends with a
/// newline is kept without it, whatever precedes it, another newline
/// included; content that does not end with one is kept as it is.
pub proof fn lemma_strips_one_newline(body: Seq<char>)
    ensures
        spec_normalize(body.push('\n')) == body,
        spec_normalize(body.push('\n').push('\n')) == body.push('\n'),
        body.len() == 0 || body.last() != '\n' ==> spec_normalize(body) == body,
{
    assert(body.push('\n').drop_last() =~= body);
    assert(body.push('\n').push('\n').drop_last() =~= body.push('\n'));
}

/// The message kept for a file that cannot be read holds the path, and
/// every later load of the path fails with that same message and with the
/// attribution of its own caller, given that the cache had room.
pub proof fn lemma_failure_is_kept(
    cache: Map<Seq<char>, OutcomeView>,
    path: Seq<char>,
    reason: Seq<char>,
    later: Option<AttributionView>,
)
    requires
        !cache.contains_key(path),
        has_room(cache),
    ensures
        ({
            let kept = spec_record(cache, path, Err(reason));
            let message = failure_message(path, reason);
            &&& spec_answer(kept[path], later) == Err::<Seq<char>, CompileErrorView>(
                CompileErrorView { kind: ErrorKind::Load, message, attribution: later },
            )
            &&& contains_text(message, path)
        }),
{
    let message = failure_message(path, reason);
    let at = "unable to open template file '"@.len() as int;
    assert(message.subrange(at, at + path.len()) =~= path);
    assert(occurs_at(message, path, at));
}

} // verus!
