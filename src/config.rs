use vstd::prelude::*;
use crate::key_combination::KeyCombinationView;

pub use crate::key_combination::{KeyCombination, KeyCombinationError};

verus! {

/// A discrete input event. `NoEvent` is an internal "nothing happened"
/// marker and is never a valid binding key.
#[derive(Clone, Copy, Debug, PartialEq, Eq, Structural, Hash)]
pub enum Action {
    ButtonPress { id: u8 },
    EncoderDecrement { id: u8 },
    EncoderIncrement { id: u8 },
    NoEvent,
    ButtonRelease { id: u8 },
}

/// An executable unit: an operation program, or a radial menu. When both
/// are present the menu wins.
#[derive(Debug)]
pub struct Command {
    pub display_name: String,
    pub operations: Option<Vec<Operation>>,
    pub radial_menu_items: Option<Vec<RadialMenuItem>>,
}

/// One instruction of a command's program.
#[derive(Debug)]
pub enum Operation {
    KeyPress { key: String },
    KeyTap { key: String },
    Delay { ms: u64 },
    Repeat { times: u64, operations: Vec<Operation> },
    /// Does nothing; not written in configuration.
    NoOp,
    KeyRelease { key: String },
    /// Presses every key in order, then releases them in reverse order.
    MacroTap { actions: Vec<String> },
}

/// An entry of a radial menu; choosing it runs `command`.
#[derive(Debug)]
pub struct RadialMenuItem {
    pub label: String,
    pub command: Command,
}

/// The bindings of one application, in order; the first binding whose
/// trigger matches wins.
#[derive(Debug)]
pub struct ApplicationProfile {
    pub bindings: Vec<(KeyCombination, Command)>,
}

/// The index of the first binding whose trigger means `k`.
pub open spec fn binding_index(bindings: Seq<(KeyCombination, Command)>, k: KeyCombinationView) -> Option<int>
    decreases bindings.len(),
{
    if bindings.len() == 0 {
        None
    } else {
        match binding_index(bindings.drop_last(), k) {
            Some(i) => Some(i),
            None => if bindings.last().0@ == k {
                Some(bindings.len() - 1)
            } else {
                None
            },
        }
    }
}

proof fn lemma_binding_index_prefix(bindings: Seq<(KeyCombination, Command)>, k: KeyCombinationView, n: int)
    requires
        0 <= n < bindings.len(),
        binding_index(bindings.subrange(0, n), k) is None,
    ensures
        binding_index(bindings.subrange(0, n + 1), k) == if bindings[n].0@ == k {
            Some(n)
        } else {
            None::<int>
        },
{
    assert(bindings.subrange(0, n + 1).drop_last() =~= bindings.subrange(0, n));
}

impl ApplicationProfile {
    /// The command of the first binding whose trigger equals
    /// `key_combination`.
    pub fn get_binding(&self, key_combination: &KeyCombination) -> (r: Option<&Command>)
        ensures
            match binding_index(self.bindings@, key_combination@) {
                Some(i) => r == Some(&self.bindings@[i].1),
                None => r is None,
            },
    {
        let mut i: usize = 0;
        while i < self.bindings.len()
            invariant
                i <= self.bindings.len(),
                binding_index(self.bindings@.subrange(0, i as int), key_combination@) is None,
            decreases self.bindings.len() - i,
        {
            proof {
                lemma_binding_index_prefix(self.bindings@, key_combination@, i as int);
            }
            if self.bindings[i].0.eq(key_combination) {
                proof {
                    lemma_binding_index_extends(self.bindings@, key_combination@, i as int + 1);
                }
                return Some(&self.bindings[i].1);
            }
            i = i + 1;
        }
        assert(self.bindings@.subrange(0, i as int) =~= self.bindings@);
        None
    }
}

/// A found binding stays the first one when more bindings follow.
proof fn lemma_binding_index_extends(bindings: Seq<(KeyCombination, Command)>, k: KeyCombinationView, n: int)
    requires
        0 <= n <= bindings.len(),
        binding_index(bindings.subrange(0, n), k) is Some,
    ensures
        binding_index(bindings, k) == binding_index(bindings.subrange(0, n), k),
    decreases bindings.len() - n,
{
    if n < bindings.len() {
        assert(bindings.subrange(0, n + 1).drop_last() =~= bindings.subrange(0, n));
        lemma_binding_index_extends(bindings, k, n + 1);
    } else {
        assert(bindings.subrange(0, n) =~= bindings);
    }
}

/// Whether `regex::Regex::new` accepts `pattern`.
pub uninterp spec fn pattern_compiles(pattern: Seq<char>) -> bool;

/// Whether the compiled `pattern` matches anywhere within `haystack`.
pub uninterp spec fn pattern_found(pattern: Seq<char>, haystack: Seq<char>) -> bool;

/// Relies on `regex::Regex::new`, which rejects a malformed or oversized
/// pattern with an error, and on `regex::Regex::is_match`, which reports a
/// match anywhere in the haystack. Both depend on their arguments alone.
#[verifier::external_body]
fn search_pattern(pattern: &str, haystack: &str) -> (r: Option<bool>)
    ensures
        r is Some <==> pattern_compiles(pattern@),
        r matches Some(found) ==> found == pattern_found(pattern@, haystack@),
{
    match regex::Regex::new(pattern) {
        Ok(re) => Some(re.is_match(haystack)),
        Err(_) => None,
    }
}

/// What searching `pattern` in `haystack` gives: `None` for a pattern that
/// does not compile, else whether it matched.
pub open spec fn search_outcome(pattern: Seq<char>, haystack: Seq<char>) -> Option<bool> {
    if pattern_compiles(pattern) {
        Some(pattern_found(pattern, haystack))
    } else {
        None
    }
}

/// The index of the first outcome that is a match.
pub open spec fn first_hit(outcomes: Seq<Option<bool>>) -> Option<int>
    decreases outcomes.len(),
{
    if outcomes.len() == 0 {
        None
    } else {
        match first_hit(outcomes.drop_last()) {
            Some(i) => Some(i),
            None => if outcomes.last() == Some(true) {
                Some(outcomes.len() - 1)
            } else {
                None
            },
        }
    }
}

proof fn lemma_first_hit_bounds(outcomes: Seq<Option<bool>>)
    ensures
        first_hit(outcomes) matches Some(i) ==> 0 <= i < outcomes.len() && outcomes[i] == Some(
            true,
        ),
    decreases outcomes.len(),
{
    if outcomes.len() > 0 {
        lemma_first_hit_bounds(outcomes.drop_last());
    }
}

proof fn lemma_first_hit_step(outcomes: Seq<Option<bool>>, n: int)
    requires
        0 <= n < outcomes.len(),
        first_hit(outcomes.subrange(0, n)) is None,
    ensures
        first_hit(outcomes.subrange(0, n + 1)) == if outcomes[n] == Some(true) {
            Some(n)
        } else {
            None::<int>
        },
{
    assert(outcomes.subrange(0, n + 1).drop_last() =~= outcomes.subrange(0, n));
}

proof fn lemma_first_hit_extends(outcomes: Seq<Option<bool>>, n: int)
    requires
        0 <= n <= outcomes.len(),
        first_hit(outcomes.subrange(0, n)) is Some,
    ensures
        first_hit(outcomes) == first_hit(outcomes.subrange(0, n)),
    decreases outcomes.len() - n,
{
    if n < outcomes.len() {
        assert(outcomes.subrange(0, n + 1).drop_last() =~= outcomes.subrange(0, n));
        lemma_first_hit_extends(outcomes, n + 1);
    } else {
        assert(outcomes.subrange(0, n) =~= outcomes);
    }
}

/// Picks the first pattern that matched, skipping those that did not and
/// those that did not compile.
pub fn first_match(outcomes: &Vec<Option<bool>>) -> (r: Option<usize>)
    ensures
        match first_hit(outcomes@) {
            Some(i) => r == Some(i as usize),
            None => r is None,
        },
{
    let mut i: usize = 0;
    while i < outcomes.len()
        invariant
            i <= outcomes.len(),
            first_hit(outcomes@.subrange(0, i as int)) is None,
        decreases outcomes.len() - i,
    {
        proof {
            lemma_first_hit_step(outcomes@, i as int);
        }
        if outcomes[i] == Some(true) {
            proof {
                lemma_first_hit_extends(outcomes@, i as int + 1);
            }
            return Some(i);
        }
        i = i + 1;
    }
    assert(outcomes@.subrange(0, i as int) =~= outcomes@);
    None
}

/// The configuration: each window-title pattern with its profile, in the
/// order in which they are tried.
#[derive(Debug)]
pub struct AppConfig {
    pub application_profiles: Vec<(String, ApplicationProfile)>,
}

impl AppConfig {
    /// What searching each pattern in `title` gives, in order.
    pub open spec fn search_outcomes(&self, title: Seq<char>) -> Seq<Option<bool>> {
        Seq::new(
            self.application_profiles@.len(),
            |i: int| search_outcome(self.application_profiles@[i].0@, title),
        )
    }

    /// The profile that is active for a window `title`: the first whose
    /// pattern matches, or none.
    pub open spec fn active_profile(&self, title: Seq<char>) -> Option<&ApplicationProfile> {
        match first_hit(self.search_outcomes(title)) {
            Some(i) => Some(&self.application_profiles@[i].1),
            None => None,
        }
    }

    /// Finds the profile for a window title: the first whose pattern, as a
    /// regular expression, matches anywhere in the title. A pattern that
    /// does not compile never matches.
    pub fn resolve(&self, title: &str) -> (r: Option<&ApplicationProfile>)
        ensures
            r == self.active_profile(title@),
    {
        let mut outcomes: Vec<Option<bool>> = Vec::new();
        let mut i: usize = 0;
        while i < self.application_profiles.len()
            invariant
                i <= self.application_profiles.len(),
                outcomes@ == self.search_outcomes(title@).subrange(0, i as int),
            decreases self.application_profiles.len() - i,
        {
            let found = search_pattern(self.application_profiles[i].0.as_str(), title);
            outcomes.push(found);
            i = i + 1;
        }
        assert(outcomes@ =~= self.search_outcomes(title@));
        proof {
            lemma_first_hit_bounds(outcomes@);
        }
        match first_match(&outcomes) {
            Some(k) => Some(&self.application_profiles[k].1),
            None => None,
        }
    }
}

} // verus!
