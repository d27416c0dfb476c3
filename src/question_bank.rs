//! The read-only question bank: scraped headlines with their score and
//! their true label, and random draws from it.

use std::collections::HashMap;

use vstd::prelude::*;

use crate::model::{Answer, AnsweredQuestion, QuestionId};
use crate::text::{lowercased, to_lowercase};

verus! {

broadcast use vstd::std_specs::hash::group_hash_axioms;

/// One scraped submission as it is stored in the data set.
#[derive(Clone, PartialEq, Eq, Debug, Hash)]
pub struct RedditSubmissionData {
    pub subreddit: String,
    pub subreddit_id: String,
    pub id: String,
    pub permalink: String,
    pub created: u64,
    pub created_utc: u64,
    pub url: String,
    pub title: String,
    pub score: u64,
    pub downs: u64,
    pub ups: u64,
    pub over_18: bool,
    pub thumbnail: String,
    pub preview_image_url: Option<String>,
}

/// The label that a (lower-cased) subreddit name stands for.
pub open spec fn subreddit_answer(lower: Seq<char>) -> Option<Answer> {
    if lower == "nottheonion"@ {
        Some(Answer::NotTheOnion)
    } else if lower == "theonion"@ {
        Some(Answer::TheOnion)
    } else {
        None
    }
}

/// The label of a submission, read from its subreddit regardless of case.
pub fn answer_of_subreddit(subreddit: &str) -> (r: Option<Answer>)
    ensures
        r == subreddit_answer(lowercased(subreddit@)),
{
    let lower = to_lowercase(subreddit);
    let not_the_onion = String::from_str("nottheonion");
    let the_onion = String::from_str("theonion");
    if lower == not_the_onion {
        Some(Answer::NotTheOnion)
    } else if lower == the_onion {
        Some(Answer::TheOnion)
    } else {
        None
    }
}

/// One question of the bank, as the contracts see it.
pub struct QuestionEntry {
    pub id: QuestionId,
    pub answer: Answer,
    pub data: RedditSubmissionData,
}

/// Why a data set cannot become a question bank.
#[derive(Clone, Copy, PartialEq, Eq, Structural, Debug)]
pub enum QuestionBankError {
    /// The submission at `index` comes from neither of the two subreddits.
    UnknownSubreddit { index: usize },
    /// The submission at `index` has the id of an earlier one.
    DuplicateQuestionId { index: usize },
}

/// Why no question could be drawn.
#[derive(Clone, Copy, PartialEq, Eq, Structural, Debug)]
pub enum GetRandomQuestionIdError {
    /// No question meets the score floor outside the excluded ones.
    NoneFound,
}

/// The questions, in the order of the data set, each with its label.
#[derive(Clone, Debug)]
pub struct QuestionBank {
    records: Vec<(QuestionId, RedditSubmissionData)>,
    answers: Vec<Answer>,
    /// The position of each question, by id.
    positions: HashMap<u128, usize>,
}

impl View for QuestionBank {
    type V = Seq<QuestionEntry>;

    closed spec fn view(&self) -> Seq<QuestionEntry> {
        Seq::new(
            self.records@.len(),
            |i: int|
                QuestionEntry {
                    id: self.records@[i].0,
                    answer: self.answers@[i],
                    data: self.records@[i].1,
                },
        )
    }
}

/// `positions` maps the id of each record to its position, and holds no
/// other ids.
pub open spec fn positions_index(
    positions: Map<u128, usize>,
    records: Seq<(QuestionId, RedditSubmissionData)>,
) -> bool {
    &&& forall|i: int|
        0 <= i < records.len() ==> #[trigger] positions.contains_key(records[i].0.0)
            && positions[records[i].0.0] == i
    &&& forall|k: u128|
        #[trigger] positions.contains_key(k) ==> positions[k] < records.len() && records[positions[k] as int].0.0
            == k
}

/// No two questions share an id.
pub open spec fn ids_distinct(bank: Seq<QuestionEntry>) -> bool {
    forall|a: int, b: int| 0 <= a < b < bank.len() ==> #[trigger] bank[a].id != #[trigger] bank[b].id
}

/// Whether `score` reaches the floor `minimum` (no floor: every score does).
pub open spec fn meets_minimum(score: u64, minimum: Option<i64>) -> bool {
    match minimum {
        None => true,
        Some(m) => score as int >= m as int,
    }
}

/// Whether the question at `i` may be drawn.
pub open spec fn eligible(
    bank: Seq<QuestionEntry>,
    i: int,
    minimum: Option<i64>,
    excluded: Seq<QuestionId>,
) -> bool {
    &&& 0 <= i < bank.len()
    &&& meets_minimum(bank[i].data.score, minimum)
    &&& !excluded.contains(bank[i].id)
}

pub open spec fn any_eligible(
    bank: Seq<QuestionEntry>,
    minimum: Option<i64>,
    excluded: Seq<QuestionId>,
) -> bool {
    exists|i: int| eligible(bank, i, minimum, excluded)
}

/// Whether `q` is a question, with its true label, that a draw may yield.
pub open spec fn drawable(
    bank: Seq<QuestionEntry>,
    q: AnsweredQuestion,
    minimum: Option<i64>,
    excluded: Seq<QuestionId>,
) -> bool {
    exists|i: int|
        #![trigger bank[i]]
        eligible(bank, i, minimum, excluded) && bank[i].id == q.question_id && bank[i].answer
            == q.answer
}

/// How many questions meet the score floor.
pub open spec fn count_meeting(bank: Seq<QuestionEntry>, minimum: Option<i64>) -> nat
    decreases bank.len(),
{
    if bank.len() == 0 {
        0
    } else {
        count_meeting(bank.drop_last(), minimum) + if meets_minimum(
            bank.last().data.score,
            minimum,
        ) {
            1nat
        } else {
            0nat
        }
    }
}

/// How many questions have exactly `score`.
pub open spec fn score_count(bank: Seq<QuestionEntry>, score: u64) -> nat
    decreases bank.len(),
{
    if bank.len() == 0 {
        0
    } else {
        score_count(bank.drop_last(), score) + if bank.last().data.score == score {
            1nat
        } else {
            0nat
        }
    }
}

/// For each score that occurs, how many questions have it.
pub open spec fn score_histogram(bank: Seq<QuestionEntry>) -> Map<u64, usize> {
    Map::new(|s: u64| score_count(bank, s) > 0, |s: u64| score_count(bank, s) as usize)
}

proof fn lemma_count_meeting_bound(bank: Seq<QuestionEntry>, minimum: Option<i64>)
    ensures
        count_meeting(bank, minimum) <= bank.len(),
    decreases bank.len(),
{
    if bank.len() > 0 {
        lemma_count_meeting_bound(bank.drop_last(), minimum);
    }
}

proof fn lemma_score_count_bound(bank: Seq<QuestionEntry>, score: u64)
    ensures
        score_count(bank, score) <= bank.len(),
    decreases bank.len(),
{
    if bank.len() > 0 {
        lemma_score_count_bound(bank.drop_last(), score);
    }
}

/// Relies on rand's `Rng::gen_range` with the thread-local generator: a value
/// in `0..bound`. It panics on an empty range, which `requires` rules out.
#[verifier::external_body]
fn random_index_below(bound: usize) -> (r: usize)
    requires
        bound > 0,
    ensures
        r < bound,
{
    rand::Rng::gen_range(&mut rand::thread_rng(), 0..bound)
}

fn meets_minimum_score(score: u64, minimum: Option<i64>) -> (r: bool)
    ensures
        r == meets_minimum(score, minimum),
{
    match minimum {
        None => true,
        Some(m) => m < 0 || score >= m as u64,
    }
}

fn contains_question(ids: &Vec<QuestionId>, id: QuestionId) -> (r: bool)
    ensures
        r == ids@.contains(id),
{
    let mut i: usize = 0;
    while i < ids.len()
        invariant
            i <= ids.len(),
            forall|k: int| 0 <= k < i ==> ids@[k] != id,
        decreases ids.len() - i,
    {
        if ids[i] == id {
            assert(ids@[i as int] == id);
            return true;
        }
        i = i + 1;
    }
    false
}

impl QuestionBank {
    pub closed spec fn wf(&self) -> bool {
        &&& self.records@.len() == self.answers@.len()
        &&& ids_distinct(self@)
        &&& positions_index(self.positions@, self.records@)
    }

    /// No two questions of a well-formed bank share an id.
    pub proof fn lemma_ids_distinct(&self)
        requires
            self.wf(),
        ensures
            ids_distinct(self@),
    {
    }

    /// Labels each submission by its subreddit; a submission from another
    /// subreddit, or an id that occurs twice, makes the data set unusable.
    pub fn new(records: Vec<(QuestionId, RedditSubmissionData)>) -> (r: Result<
        QuestionBank,
        QuestionBankError,
    >)
        ensures
            match r {
                Ok(bank) => {
                    &&& bank.wf()
                    &&& ids_distinct(bank@)
                    &&& bank@.len() == records@.len()
                    &&& forall|i: int|
                        0 <= i < records@.len() ==> {
                            &&& (#[trigger] bank@[i]).id == records@[i].0
                            &&& bank@[i].data == records@[i].1
                            &&& subreddit_answer(lowercased(records@[i].1.subreddit@)) == Some(
                                bank@[i].answer,
                            )
                        }
                },
                Err(QuestionBankError::UnknownSubreddit { index }) => {
                    &&& index < records@.len()
                    &&& subreddit_answer(lowercased(records@[index as int].1.subreddit@)) is None
                },
                Err(QuestionBankError::DuplicateQuestionId { index }) => {
                    &&& index < records@.len()
                    &&& exists|j: int| 0 <= j < index && records@[j].0 == records@[index as int].0
                },
            },
    {
        let mut answers: Vec<Answer> = Vec::new();
        let mut positions: HashMap<u128, usize> = HashMap::new();
        let mut i: usize = 0;
        while i < records.len()
            invariant
                i <= records.len(),
                answers@.len() == i,
                forall|k: int|
                    0 <= k < i ==> subreddit_answer(lowercased(records@[k].1.subreddit@)) == Some(
                        #[trigger] answers@[k],
                    ),
                positions_index(positions@, records@.subrange(0, i as int)),
            decreases records.len() - i,
        {
            match answer_of_subreddit(records[i].1.subreddit.as_str()) {
                Some(a) => answers.push(a),
                None => {
                    return Err(QuestionBankError::UnknownSubreddit { index: i });
                },
            }
            let id = records[i].0.0;
            if positions.contains_key(&id) {
                proof {
                    let j = positions@[id] as int;
                    assert(records@.subrange(0, i as int)[j].0.0 == id);
                    assert(records@[j].0 == records@[i as int].0);
                }
                return Err(QuestionBankError::DuplicateQuestionId { index: i });
            }
            let ghost before = positions@;
            positions.insert(id, i);
            proof {
                let prefix = records@.subrange(0, i + 1);
                assert forall|k: int| 0 <= k < prefix.len() implies #[trigger] positions@.contains_key(prefix[k].0.0)
                    && positions@[prefix[k].0.0] == k by {
                    if k < i {
                        assert(prefix[k] == records@.subrange(0, i as int)[k]);
                    }
                }
                assert forall|k: u128| #[trigger] positions@.contains_key(k) implies positions@[k] < prefix.len()
                    && prefix[positions@[k] as int].0.0 == k by {
                    if k != id {
                        assert(before.contains_key(k));
                        assert(prefix[before[k] as int] == records@.subrange(0, i as int)[before[k] as int]);
                    }
                }
            }
            i = i + 1;
        }
        assert(records@.subrange(0, i as int) =~= records@);
        let bank = QuestionBank { records, answers, positions };
        assert(positions_index(bank.positions@, bank.records@));
        assert(ids_distinct(bank@)) by {
            assert forall|a: int, b: int| 0 <= a < b < bank@.len() implies #[trigger] bank@[a].id
                != #[trigger] bank@[b].id by {
                assert(bank@[a].id == bank.records@[a].0);
                assert(bank@[b].id == bank.records@[b].0);
                assert(bank.positions@.contains_key(bank.records@[a].0.0));
                assert(bank.positions@.contains_key(bank.records@[b].0.0));
            }
        }
        Ok(bank)
    }

    pub fn len(&self) -> (r: usize)
        ensures
            r == self@.len(),
    {
        self.records.len()
    }
}

/// The submission data of the first question with `question_id`.
pub fn get<'a>(bank: &'a QuestionBank, question_id: &QuestionId) -> (r: Option<
    &'a RedditSubmissionData,
>)
    requires
        bank.wf(),
    ensures
        match r {
            Some(d) => exists|i: int|
                0 <= i < bank@.len() && bank@[i].id == *question_id && bank@[i].data == *d
                    && forall|j: int| 0 <= j < i ==> (#[trigger] bank@[j]).id != *question_id,
            None => forall|i: int| 0 <= i < bank@.len() ==> (#[trigger] bank@[i]).id != *question_id,
        },
{
    match find_question(bank, *question_id) {
        Some(i) => Some(&bank.records[i].1),
        None => None,
    }
}

fn find_question(bank: &QuestionBank, question_id: QuestionId) -> (r: Option<usize>)
    requires
        bank.wf(),
    ensures
        match r {
            Some(i) => i < bank@.len() && bank@[i as int].id == question_id && forall|j: int|
                0 <= j < i ==> (#[trigger] bank@[j]).id != question_id,
            None => forall|i: int| 0 <= i < bank@.len() ==> (#[trigger] bank@[i]).id != question_id,
        },
{
    match bank.positions.get(&question_id.0) {
        Some(i) => {
            let i = *i;
            proof {
                assert forall|j: int| 0 <= j < i implies (#[trigger] bank@[j]).id != question_id by {
                    if bank@[j].id == question_id {
                        assert(bank.positions@[bank.records@[j].0.0] == j);
                    }
                }
            }
            Some(i)
        },
        None => {
            proof {
                assert forall|j: int| 0 <= j < bank@.len() implies (#[trigger] bank@[j]).id != question_id by {
                    assert(bank.positions@.contains_key(bank.records@[j].0.0));
                }
            }
            None
        },
    }
}

/// The question with `question_id` together with its true label.
pub fn get_answered_question(bank: &QuestionBank, question_id: QuestionId) -> (r: Option<
    AnsweredQuestion,
>)
    requires
        bank.wf(),
    ensures
        match r {
            Some(q) => q.question_id == question_id && exists|i: int|
                0 <= i < bank@.len() && bank@[i].id == question_id && bank@[i].answer == q.answer
                    && forall|j: int| 0 <= j < i ==> (#[trigger] bank@[j]).id != question_id,
            None => forall|i: int| 0 <= i < bank@.len() ==> (#[trigger] bank@[i]).id != question_id,
        },
{
    match find_question(bank, question_id) {
        Some(i) => Some(AnsweredQuestion { question_id, answer: bank.answers[i] }),
        None => None,
    }
}

/// How many questions meet the score floor: the largest sensible number of
/// questions for a round with that floor.
pub fn calculate_count_of_questions(bank: &QuestionBank, minimum_score_per_question: Option<i64>) -> (r:
    usize)
    requires
        bank.wf(),
    ensures
        r == count_meeting(bank@, minimum_score_per_question),
{
    let mut count: usize = 0;
    let mut i: usize = 0;
    while i < bank.records.len()
        invariant
            bank.wf(),
            i <= bank.records.len(),
            count == count_meeting(bank@.subrange(0, i as int), minimum_score_per_question),
        decreases bank.records.len() - i,
    {
        proof {
            assert(bank@.subrange(0, i + 1).drop_last() =~= bank@.subrange(0, i as int));
            lemma_count_meeting_bound(bank@.subrange(0, i as int), minimum_score_per_question);
        }
        if meets_minimum_score(bank.records[i].1.score, minimum_score_per_question) {
            count = count + 1;
        }
        i = i + 1;
    }
    assert(bank@.subrange(0, i as int) =~= bank@);
    count
}

/// For each score that occurs in the bank, how many questions have it.
pub fn distribution(bank: &QuestionBank) -> (r: HashMap<u64, usize>)
    requires
        bank.wf(),
    ensures
        r@ == score_histogram(bank@),
{
    let mut m: HashMap<u64, usize> = HashMap::new();
    let mut i: usize = 0;
    while i < bank.records.len()
        invariant
            bank.wf(),
            i <= bank.records.len(),
            m@ == score_histogram(bank@.subrange(0, i as int)),
        decreases bank.records.len() - i,
    {
        let score = bank.records[i].1.score;
        let ghost prefix = bank@.subrange(0, i as int);
        let ghost next = bank@.subrange(0, i + 1);
        proof {
            assert(next.drop_last() =~= prefix);
            lemma_score_count_bound(prefix, score);
        }
        let count: usize = match m.get(&score) {
            Some(c) => *c,
            None => 0,
        };
        m.insert(score, count + 1);
        proof {
            assert(m@ =~= score_histogram(next));
        }
        i = i + 1;
    }
    assert(bank@.subrange(0, i as int) =~= bank@);
    m
}

/// The positions below `n` of the questions that may be drawn, in order.
pub open spec fn eligible_positions(
    bank: Seq<QuestionEntry>,
    minimum: Option<i64>,
    excluded: Seq<QuestionId>,
    n: int,
) -> Seq<int>
    decreases n,
{
    if n <= 0 {
        Seq::empty()
    } else {
        let s = eligible_positions(bank, minimum, excluded, n - 1);
        if eligible(bank, n - 1, minimum, excluded) {
            s.push(n - 1)
        } else {
            s
        }
    }
}

/// The positions of all the questions that may be drawn, in bank order.
pub open spec fn candidates(
    bank: Seq<QuestionEntry>,
    minimum: Option<i64>,
    excluded: Seq<QuestionId>,
) -> Seq<int> {
    eligible_positions(bank, minimum, excluded, bank.len() as int)
}

/// The candidates are exactly the questions that may be drawn: every listed
/// position is eligible, and every eligible question is listed.
pub proof fn lemma_candidates_are_eligible(
    bank: Seq<QuestionEntry>,
    minimum: Option<i64>,
    excluded: Seq<QuestionId>,
    n: int,
)
    requires
        0 <= n <= bank.len(),
    ensures
        forall|k: int|
            0 <= k < eligible_positions(bank, minimum, excluded, n).len() ==> {
                &&& eligible(bank, #[trigger] eligible_positions(bank, minimum, excluded, n)[k], minimum, excluded)
                &&& eligible_positions(bank, minimum, excluded, n)[k] < n
            },
        forall|i: int|
            0 <= i < n && #[trigger] eligible(bank, i, minimum, excluded) ==> eligible_positions(
                bank,
                minimum,
                excluded,
                n,
            ).contains(i),
    decreases n,
{
    if n > 0 {
        lemma_candidates_are_eligible(bank, minimum, excluded, n - 1);
        let s = eligible_positions(bank, minimum, excluded, n - 1);
        assert forall|i: int|
            0 <= i < n && #[trigger] eligible(bank, i, minimum, excluded) implies eligible_positions(
                bank,
                minimum,
                excluded,
                n,
            ).contains(i) by {
            if i < n - 1 {
                let k = choose|k: int| 0 <= k < s.len() && s[k] == i;
                assert(eligible_positions(bank, minimum, excluded, n)[k] == i);
            } else {
                let t = eligible_positions(bank, minimum, excluded, n);
                assert(t[t.len() - 1] == i);
            }
        }
    }
}

/// The positions of the questions that may be drawn, in bank order.
fn candidate_positions(bank: &QuestionBank, minimum: Option<i64>, blacklist: &Vec<QuestionId>) -> (r:
    Vec<usize>)
    requires
        bank.wf(),
    ensures
        r@.map_values(|x: usize| x as int) == candidates(bank@, minimum, blacklist@),
{
    let mut found: Vec<usize> = Vec::new();
    let mut i: usize = 0;
    while i < bank.records.len()
        invariant
            bank.wf(),
            i <= bank.records.len(),
            found@.map_values(|x: usize| x as int) == eligible_positions(
                bank@,
                minimum,
                blacklist@,
                i as int,
            ),
        decreases bank.records.len() - i,
    {
        let ghost before = found@;
        if meets_minimum_score(bank.records[i].1.score, minimum) && !contains_question(
            blacklist,
            bank.records[i].0,
        ) {
            found.push(i);
            assert(found@.map_values(|x: usize| x as int) =~= before.map_values(|x: usize| x as int).push(
                i as int,
            ));
        }
        i = i + 1;
    }
    found
}

/// How many questions may be drawn.
pub fn count_candidates(bank: &QuestionBank, minimum_score_per_question: Option<i64>, blacklist: &Vec<QuestionId>) -> (r:
    usize)
    requires
        bank.wf(),
    ensures
        r == candidates(bank@, minimum_score_per_question, blacklist@).len(),
{
    let found = candidate_positions(bank, minimum_score_per_question, blacklist);
    found.len()
}

/// The question that draw number `k` yields: the `k`-th of the questions that
/// may be drawn, in bank order, with its label. `None` when `k` is past them.
pub fn pick_answered_question(
    bank: &QuestionBank,
    minimum_score_per_question: Option<i64>,
    blacklist: &Vec<QuestionId>,
    k: usize,
) -> (r: Option<AnsweredQuestion>)
    requires
        bank.wf(),
    ensures
        r == if k < candidates(bank@, minimum_score_per_question, blacklist@).len() {
            let i = candidates(bank@, minimum_score_per_question, blacklist@)[k as int];
            Some(AnsweredQuestion { question_id: bank@[i].id, answer: bank@[i].answer })
        } else {
            None::<AnsweredQuestion>
        },
{
    let found = candidate_positions(bank, minimum_score_per_question, blacklist);
    if k < found.len() {
        let i = found[k];
        assert(found@.map_values(|x: usize| x as int)[k as int] == i as int);
        proof {
            lemma_candidates_are_eligible(bank@, minimum_score_per_question, blacklist@, bank@.len() as int);
        }
        Some(AnsweredQuestion { question_id: bank.records[i].0, answer: bank.answers[i] })
    } else {
        None
    }
}

/// Draws, uniformly at random, a question that meets the score floor and is
/// not in `blacklist`, together with its label: draw number `k` for a random
/// `k` below the number of such questions.
pub fn get_random_answered_question(
    bank: &QuestionBank,
    minimum_score_per_question: Option<i64>,
    blacklist: &Vec<QuestionId>,
) -> (r: Result<AnsweredQuestion, GetRandomQuestionIdError>)
    requires
        bank.wf(),
    ensures
        match r {
            Ok(q) => {
                &&& exists|k: int|
                    0 <= k < candidates(bank@, minimum_score_per_question, blacklist@).len() && q
                        == (AnsweredQuestion {
                        question_id: bank@[#[trigger] candidates(
                            bank@,
                            minimum_score_per_question,
                            blacklist@,
                        )[k]].id,
                        answer: bank@[candidates(bank@, minimum_score_per_question, blacklist@)[k]].answer,
                    })
                &&& drawable(bank@, q, minimum_score_per_question, blacklist@)
                &&& forall|j: int|
                    0 <= j < bank@.len() && (#[trigger] bank@[j]).id == q.question_id ==> bank@[j].answer
                        == q.answer
            },
            Err(e) => e == GetRandomQuestionIdError::NoneFound && !any_eligible(
                bank@,
                minimum_score_per_question,
                blacklist@,
            ) && candidates(bank@, minimum_score_per_question, blacklist@).len() == 0,
        },
{
    let ghost c = candidates(bank@, minimum_score_per_question, blacklist@);
    proof {
        lemma_candidates_are_eligible(bank@, minimum_score_per_question, blacklist@, bank@.len() as int);
    }
    let n = count_candidates(bank, minimum_score_per_question, blacklist);
    if n == 0 {
        assert(!any_eligible(bank@, minimum_score_per_question, blacklist@)) by {
            if any_eligible(bank@, minimum_score_per_question, blacklist@) {
                let i = choose|i: int| eligible(bank@, i, minimum_score_per_question, blacklist@);
                assert(c.contains(i));
            }
        }
        return Err(GetRandomQuestionIdError::NoneFound);
    }
    let k = random_index_below(n);
    match pick_answered_question(bank, minimum_score_per_question, blacklist, k) {
        Some(q) => {
            proof {
                let i = c[k as int];
                assert(eligible(bank@, i, minimum_score_per_question, blacklist@));
                assert(bank@[i].id == q.question_id && bank@[i].answer == q.answer);
                assert forall|j: int|
                    0 <= j < bank@.len() && (#[trigger] bank@[j]).id == q.question_id implies bank@[j].answer
                        == q.answer by {
                    if j != i {
                        if j < i {
                            assert(bank@[j].id != bank@[i].id);
                        } else {
                            assert(bank@[i].id != bank@[j].id);
                        }
                    }
                }
            }
            Ok(q)
        },
        None => Err(GetRandomQuestionIdError::NoneFound),
    }
}

/// Draws, uniformly at random, the id of a question that meets the score
/// floor and is not in `blacklist`; the id of draw number `k` for a random
/// `k` below the number of such questions.
pub fn get_random_question_id(
    bank: &QuestionBank,
    minimum_score_per_question: Option<i64>,
    blacklist: &Vec<QuestionId>,
) -> (r: Result<QuestionId, GetRandomQuestionIdError>)
    requires
        bank.wf(),
    ensures
        match r {
            Ok(id) => {
                &&& exists|k: int|
                    0 <= k < candidates(bank@, minimum_score_per_question, blacklist@).len() && id
                        == bank@[#[trigger] candidates(bank@, minimum_score_per_question, blacklist@)[k]].id
                &&& exists|i: int|
                    eligible(bank@, i, minimum_score_per_question, blacklist@) && #[trigger] bank@[i].id
                        == id
            },
            Err(e) => e == GetRandomQuestionIdError::NoneFound && !any_eligible(
                bank@,
                minimum_score_per_question,
                blacklist@,
            ) && candidates(bank@, minimum_score_per_question, blacklist@).len() == 0,
        },
{
    match get_random_answered_question(bank, minimum_score_per_question, blacklist) {
        Ok(q) => {
            proof {
                let i = choose|i: int|
                    #![trigger bank@[i]]
                    eligible(bank@, i, minimum_score_per_question, blacklist@) && bank@[i].id
                        == q.question_id && bank@[i].answer == q.answer;
            }
            Ok(q.question_id)
        },
        Err(e) => Err(e),
    }
}

} // verus!
