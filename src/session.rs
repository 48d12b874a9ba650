//! A learner's progress, and the commands of the main prompt.
use vstd::prelude::*;
use std::collections::{BTreeMap, BTreeSet};
use crate::config::str_equal;

verus! {

/// Which lessons are unlocked and completed, and the last attempt at each.
#[derive(Debug)]
pub struct Save {
    pub unlocked_lessons: BTreeSet<u16>,
    pub completed_lessons: BTreeSet<u16>,
    pub attempts: BTreeMap<u16, String>,
}

impl Default for Save {
    /// A fresh start: only the first lesson unlocked, nothing completed, no
    /// attempts.
    fn default() -> (r: Save)
        ensures
            r.unlocked_lessons@ == set![0u16],
            r.completed_lessons@ == Set::<u16>::empty(),
            r.attempts@ == Map::<u16, String>::empty(),
    {
        broadcast use vstd::laws_cmp::group_laws_cmp;

        let mut unlocked_lessons: BTreeSet<u16> = BTreeSet::new();
        unlocked_lessons.insert(0);
        assert(unlocked_lessons@ =~= set![0u16]);
        Save { unlocked_lessons, completed_lessons: BTreeSet::new(), attempts: BTreeMap::new() }
    }
}

/// A lesson, given by its id and the ids it requires, can be unlocked: it is
/// neither completed nor unlocked, and all it requires is completed.
pub open spec fn unlockable(l: (u16, Seq<u16>), completed: Set<u16>, unlocked: Set<u16>) -> bool {
    &&& !completed.contains(l.0)
    &&& !unlocked.contains(l.0)
    &&& forall|i: int| 0 <= i < l.1.len() ==> completed.contains(#[trigger] l.1[i])
}

/// The ids of the lessons that can be unlocked, in the order given.
pub open spec fn newly_unlocked(ls: Seq<(u16, Seq<u16>)>, completed: Set<u16>, unlocked: Set<u16>) -> Seq<u16>
    decreases ls.len(),
{
    if ls.len() == 0 {
        Seq::empty()
    } else {
        let before = newly_unlocked(ls.drop_last(), completed, unlocked);
        if unlockable(ls.last(), completed, unlocked) {
            before.push(ls.last().0)
        } else {
            before
        }
    }
}

/// Each lesson's id and the ids it requires.
pub open spec fn requirements_view(ls: Seq<(u16, Vec<u16>)>) -> Seq<(u16, Seq<u16>)> {
    ls.map_values(|l: (u16, Vec<u16>)| (l.0, l.1@))
}

impl Save {
    /// Records that `lesson_id` is completed, then unlocks every lesson of
    /// `lessons` (id and required ids) that is neither completed nor
    /// unlocked and whose requirements are all completed. Returns the ids
    /// unlocked, in the order of `lessons`.
    pub fn complete_lesson(&mut self, lesson_id: u16, lessons: &Vec<(u16, Vec<u16>)>) -> (r: Vec<u16>)
        ensures
            final(self).completed_lessons@ == old(self).completed_lessons@.insert(lesson_id),
            r@ == newly_unlocked(
                requirements_view(lessons@),
                old(self).completed_lessons@.insert(lesson_id),
                old(self).unlocked_lessons@.remove(lesson_id),
            ),
            final(self).unlocked_lessons@ == old(self).unlocked_lessons@.remove(lesson_id)
                + r@.to_set(),
            final(self).attempts@ == old(self).attempts@,
    {
        broadcast use vstd::laws_cmp::group_laws_cmp, vstd::std_specs::btree::group_btree_axioms;

        self.unlocked_lessons.remove(&lesson_id);
        self.completed_lessons.insert(lesson_id);
        let ghost completed = self.completed_lessons@;
        let ghost unlocked = self.unlocked_lessons@;
        let ghost ls = requirements_view(lessons@);
        let mut found: Vec<u16> = Vec::new();
        let mut i: usize = 0;
        assert(ls.subrange(0, 0).len() == 0);
        while i < lessons.len()
            invariant
                i <= lessons@.len(),
                ls == requirements_view(lessons@),
                completed == self.completed_lessons@,
                unlocked == self.unlocked_lessons@,
                self.attempts == old(self).attempts,
                found@ == newly_unlocked(ls.subrange(0, i as int), completed, unlocked),
            decreases lessons@.len() - i,
        {
            let (id, reqs) = (lessons[i].0, &lessons[i].1);
            assert(ls.subrange(0, i + 1).drop_last() == ls.subrange(0, i as int));
            assert(ls[i as int] == (id, reqs@));
            let mut ok = !self.completed_lessons.contains(&id) && !self.unlocked_lessons.contains(&id);
            let mut j: usize = 0;
            while ok && j < reqs.len()
                invariant
                    j <= reqs@.len(),
                    completed == self.completed_lessons@,
                    ok ==> forall|t: int| 0 <= t < j ==> completed.contains(#[trigger] reqs@[t]),
                    !ok ==> !unlockable((id, reqs@), completed, unlocked),
                    ok ==> !completed.contains(id) && !unlocked.contains(id),
                decreases reqs@.len() - j,
            {
                if !self.completed_lessons.contains(&reqs[j]) {
                    assert(!completed.contains(reqs@[j as int]));
                    assert(!completed.contains((id, reqs@).1[j as int]));
                    assert(!unlockable((id, reqs@), completed, unlocked));
                    ok = false;
                }
                j += 1;
            }
            if ok {
                found.push(id);
            }
            i += 1;
        }
        assert(ls.subrange(0, lessons@.len() as int) == ls);
        let mut k: usize = 0;
        assert(found@.subrange(0, 0).to_set() =~= Set::<u16>::empty());
        assert(self.unlocked_lessons@ =~= unlocked + found@.subrange(0, 0).to_set());
        while k < found.len()
            invariant
                k <= found@.len(),
                self.unlocked_lessons@ == unlocked + found@.subrange(0, k as int).to_set(),
                completed == self.completed_lessons@,
                self.attempts == old(self).attempts,
            decreases found@.len() - k,
        {
            let ghost before = self.unlocked_lessons@;
            self.unlocked_lessons.insert(found[k]);
            assert(found@.subrange(0, k + 1) == found@.subrange(0, k as int).push(found@[k as int]));
            proof {
                found@.subrange(0, k as int).lemma_push_to_set_commute(found@[k as int]);
            }
            assert(self.unlocked_lessons@ =~= unlocked + found@.subrange(0, k + 1).to_set());
            k += 1;
        }
        assert(found@.subrange(0, found@.len() as int) == found@);
        found
    }
}

/// The commands of the main prompt.
pub open spec fn is_command(s: Seq<char>) -> bool {
    ||| s == "help"@
    ||| s == "select"@
    ||| s == "next"@
    ||| s == "retry"@
    ||| s == "quit"@
    ||| s == "progress"@
    ||| s == "review"@
}

/// The commands of the main prompt, in the order suggestions list them
/// when they score the same.
pub open spec fn commands() -> Seq<Seq<char>> {
    seq!["help"@, "select"@, "next"@, "retry"@, "quit"@, "progress"@, "review"@]
}

/// The score of a fuzzy match of `pattern` against `choice` (case ignored),
/// or `None` where it does not match.
pub uninterp spec fn skim_score(choice: Seq<char>, pattern: Seq<char>) -> Option<i64>;

/// Relies on fuzzy_matcher's `SkimMatcherV2::default().ignore_case()` and its
/// `FuzzyMatcher::fuzzy_match`: the score depends on the choice and the
/// pattern alone.
#[verifier::external_body]
fn fuzzy_score(choice: &str, pattern: &str) -> (r: Option<i64>)
    ensures
        r == skim_score(choice@, pattern@),
{
    fuzzy_matcher::FuzzyMatcher::fuzzy_match(
        &fuzzy_matcher::skim::SkimMatcherV2::default().ignore_case(),
        choice,
        pattern,
    )
}

/// The commands among the first `n` that match `pattern`, with their
/// scores, in command order.
pub open spec fn scored(pattern: Seq<char>, n: int) -> Seq<(Seq<char>, i64)>
    decreases n,
{
    if n <= 0 {
        Seq::empty()
    } else {
        let before = scored(pattern, n - 1);
        match skim_score(commands()[n - 1], pattern) {
            Some(score) => before.push((commands()[n - 1], score)),
            None => before,
        }
    }
}

/// `x` placed after every element of `s` whose score is at least its own.
pub open spec fn insert_desc(s: Seq<(Seq<char>, i64)>, x: (Seq<char>, i64)) -> Seq<(Seq<char>, i64)>
    decreases s.len(),
{
    if s.len() == 0 {
        seq![x]
    } else if s.last().1 >= x.1 {
        s.push(x)
    } else {
        insert_desc(s.drop_last(), x).push(s.last())
    }
}

/// `s` ordered by descending score; equal scores keep their order.
pub open spec fn sort_desc(s: Seq<(Seq<char>, i64)>) -> Seq<(Seq<char>, i64)>
    decreases s.len(),
{
    if s.len() == 0 {
        Seq::empty()
    } else {
        insert_desc(sort_desc(s.drop_last()), s.last())
    }
}

/// The suggestions for `pattern`: the matching commands, best score first.
pub open spec fn suggestions(pattern: Seq<char>) -> Seq<Seq<char>> {
    sort_desc(scored(pattern, 7)).map_values(|p: (Seq<char>, i64)| p.0)
}

/// Inserting where the scores after the position are all lower and the one
/// before it is not is what `insert_desc` does.
proof fn lemma_insert_at(s: Seq<(Seq<char>, i64)>, x: (Seq<char>, i64), j: int)
    requires
        0 <= j <= s.len(),
        forall|t: int| j <= t < s.len() ==> s[t].1 < x.1,
        j > 0 ==> s[j - 1].1 >= x.1,
    ensures
        insert_desc(s, x) == s.subrange(0, j).push(x) + s.subrange(j, s.len() as int),
    decreases s.len(),
{
    if s.len() == j {
        if s.len() == 0 {
            assert(seq![x] =~= Seq::<(Seq<char>, i64)>::empty().push(x) + Seq::<(Seq<char>, i64)>::empty());
        } else {
            assert(s.push(x) =~= s.subrange(0, j).push(x) + s.subrange(j, s.len() as int));
        }
    } else {
        lemma_insert_at(s.drop_last(), x, j);
        assert(insert_desc(s, x) =~= s.subrange(0, j).push(x) + s.subrange(j, s.len() as int));
    }
}

fn command_text(i: usize) -> (r: &'static str)
    requires
        i < 7,
    ensures
        r@ == commands()[i as int],
{
    if i == 0 {
        "help"
    } else if i == 1 {
        "select"
    } else if i == 2 {
        "next"
    } else if i == 3 {
        "retry"
    } else if i == 4 {
        "quit"
    } else if i == 5 {
        "progress"
    } else {
        "review"
    }
}

/// The characters and score of each suggestion.
pub open spec fn scored_view(v: Seq<(String, i64)>) -> Seq<(Seq<char>, i64)> {
    v.map_values(|p: (String, i64)| (p.0@, p.1))
}

/// The main prompt, which accepts only its commands.
#[derive(Debug, Clone, Copy)]
pub struct MainPrompt;

impl MainPrompt {
    /// Whether `input` is one of the commands.
    pub fn validate(&self, input: &str) -> (r: bool)
        ensures
            r == is_command(input@),
    {
        str_equal(input, "help") || str_equal(input, "select") || str_equal(input, "next")
            || str_equal(input, "retry") || str_equal(input, "quit") || str_equal(input, "progress")
            || str_equal(input, "review")
    }

    /// The commands that fuzzily match `input`, best score first; commands
    /// with the same score keep their order.
    pub fn get_suggestions(&self, input: &str) -> (r: Vec<String>)
        ensures
            r@.map_values(|s: String| s@) == suggestions(input@),
    {
        let mut sorted: Vec<(String, i64)> = Vec::new();
        let mut i: usize = 0;
        assert(scored_view(sorted@) =~= sort_desc(scored(input@, 0)));
        while i < 7
            invariant
                i <= 7,
                scored_view(sorted@) == sort_desc(scored(input@, i as int)),
            decreases 7 - i,
        {
            let name = command_text(i);
            match fuzzy_score(name, input) {
                None => {},
                Some(score) => {
                    let ghost before = scored_view(sorted@);
                    let ghost x = (name@, score);
                    let mut j: usize = sorted.len();
                    while j > 0 && sorted[j - 1].1 < score
                        invariant
                            j <= sorted@.len(),
                            before == scored_view(sorted@),
                            forall|t: int| j <= t < sorted@.len() ==> before[t].1 < score,
                        decreases j,
                    {
                        j -= 1;
                    }
                    proof {
                        lemma_insert_at(before, x, j as int);
                        assert(scored(input@, i + 1).drop_last() == scored(input@, i as int));
                    }
                    sorted.insert(j, (name.to_owned(), score));
                    assert(scored_view(sorted@) =~= before.subrange(0, j as int).push(x)
                        + before.subrange(j as int, before.len() as int));
                },
            }
            i += 1;
        }
        let mut out: Vec<String> = Vec::new();
        let mut k: usize = 0;
        while k < sorted.len()
            invariant
                k <= sorted@.len(),
                out@.len() == k,
                forall|t: int| 0 <= t < k ==> #[trigger] out@[t]@ == sorted@[t].0@,
            decreases sorted@.len() - k,
        {
            out.push(sorted[k].0.as_str().to_owned());
            k += 1;
        }
        assert(out@.map_values(|s: String| s@) =~= scored_view(sorted@).map_values(
            |p: (Seq<char>, i64)| p.0,
        ));
        out
    }

    /// The completion of `input`: the highlighted suggestion if there is one,
    /// else the best suggestion, if any.
    pub fn get_completion(&self, input: &str, highlighted_suggestion: Option<String>) -> (r: Option<
        String,
    >)
        ensures
            highlighted_suggestion is Some ==> r == highlighted_suggestion,
            highlighted_suggestion is None && suggestions(input@).len() == 0 ==> r is None,
            highlighted_suggestion is None && suggestions(input@).len() > 0 ==> (r is Some
                && r->Some_0@ == suggestions(input@)[0]),
    {
        match highlighted_suggestion {
            Some(s) => Some(s),
            None => {
                let all = self.get_suggestions(input);
                if all.len() == 0 {
                    None
                } else {
                    proof {
                        assert(all@.map_values(|s: String| s@)[0] == all@[0]@);
                    }
                    Some(all[0].as_str().to_owned())
                }
            },
        }
    }
}

} // verus!
