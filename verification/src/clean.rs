//! The cleaner: configuration captured once, then one walk over a snapshot.

use vstd::prelude::*;

use crate::filter::compile_pattern;
use crate::filter::pattern_srcs;
use crate::filter::regex_ok;
use crate::filter::regex_src;
use crate::fs_model::DirTree;
use crate::fs_model::RuleSource;
use crate::human::human_of;
use crate::human::human_size;
use crate::plan::sat_add_n;
use crate::plan::sat_add_u64;
use crate::plan::Note;
use crate::plan::NoteKind;
use crate::plan::Outcome;
use crate::plan::Plan;
use crate::plan::PlanV;
use crate::plan::WalkV;
use crate::rules::compile_rules;
use crate::rules::rules_ok;
use crate::walk::broken_rules_v;
use crate::walk::lemma_walk_dir_bounded;
use crate::walk::run_dir;
use crate::walk::scope_view;
use crate::walk::walk_dir_v;
use crate::walk::CfgV;
use crate::walk::ScopeV;

verus! {

/// The run's immutable configuration, plus the running byte total.
pub struct Cleaner {
    pub path: String,
    pub delete: bool,
    pub quiet: bool,
    pub ignore_errors: bool,
    pub skip_nested: bool,
    pub skip_patterns: Vec<regex::Regex>,
    pub calculate_size: bool,
    pub total_size: u64,
}

/// The mathematical value of a `Cleaner`: compiled skip patterns stand for
/// their pattern texts.
#[verifier::ext_equal]
pub ghost struct CleanerV {
    pub path: Seq<char>,
    pub delete: bool,
    pub quiet: bool,
    pub ignore_errors: bool,
    pub skip_nested: bool,
    pub patterns: Seq<Seq<char>>,
    pub calculate_size: bool,
    pub total_size: nat,
}

impl View for Cleaner {
    type V = CleanerV;

    open spec fn view(&self) -> CleanerV {
        (CleanerV {
            path: self.path@,
            delete: self.delete,
            quiet: self.quiet,
            ignore_errors: self.ignore_errors,
            skip_nested: self.skip_nested,
            patterns: pattern_srcs(self.skip_patterns@),
            calculate_size: self.calculate_size,
            total_size: self.total_size as nat,
        })
    }
}

impl CleanerV {
    /// What the walk reads; the delete flag is deliberately not part of it.
    pub open spec fn cfg(self) -> CfgV {
        (CfgV {
            quiet: self.quiet,
            ignore_errors: self.ignore_errors,
            skip_nested: self.skip_nested,
            patterns: self.patterns,
            calculate_size: self.calculate_size,
        })
    }
}

/// The pattern texts handed to `try_create`, as sequences of characters.
pub open spec fn given_patterns(skip_patterns: Option<Vec<String>>) -> Seq<Seq<char>> {
    match skip_patterns {
        Option::None => Seq::<Seq<char>>::empty(),
        Option::Some(v) => v@.map_values(|p: String| p@),
    }
}

/// A configuration error, surfaced before any walk.
pub enum CleanError {
    /// A skip pattern is not a well-formed regular expression.
    BadPattern { pattern: String },
}

/// Whether the root's own rule file exists but cannot be used.  Then the
/// whole walk is refused: nothing anywhere is visited, reported or deleted,
/// which is the fail-safe against destructive action under a broken
/// top-level configuration.
pub open spec fn root_rules_broken(root: DirTree) -> bool {
    match root.rules {
        RuleSource::Absent => false,
        RuleSource::Unreadable => true,
        RuleSource::Text(txt) => !rules_ok(txt@),
    }
}

/// The whole run: scope resolution at the root, then the walk.
pub open spec fn clean_v(c: CleanerV, root: DirTree) -> WalkV {
    match root.rules {
        RuleSource::Absent => walk_dir_v(c.cfg(), c.path, root, Option::None),
        RuleSource::Unreadable => broken_rules_v(c.path),
        RuleSource::Text(txt) => {
            if rules_ok(txt@) {
                walk_dir_v(
                    c.cfg(),
                    c.path,
                    root,
                    Option::Some(ScopeV { root: c.path, rules: txt@ }),
                )
            } else {
                broken_rules_v(c.path)
            }
        },
    }
}

/// What `clean` returns: the plan, the walk's outcome, and the final total
/// line's text when one is owed.
pub struct CleanResult {
    pub plan: Plan,
    pub outcome: Outcome,
    pub total_text: Option<String>,
}

impl Cleaner {
    /// Captures the configuration.  Fails exactly when some skip pattern does
    /// not compile, naming the first one that does not.
    pub fn try_create(
        path: String,
        delete: bool,
        quiet: bool,
        ignore_errors: bool,
        skip_nested: bool,
        skip_patterns: Option<Vec<String>>,
        calculate_size: bool,
    ) -> (r: Result<Cleaner, CleanError>)
        ensures
            ({
                let given = given_patterns(skip_patterns);
                &&& r is Ok <==> (forall|j: int| 0 <= j < given.len() ==> regex_ok(given[j]))
                &&& (r matches Ok(c) ==> c@ == (CleanerV {
                    path: path@,
                    delete,
                    quiet,
                    ignore_errors,
                    skip_nested,
                    patterns: given,
                    calculate_size,
                    total_size: 0,
                }))
                &&& (r matches Err(e) ==> exists|j: int|
                    {
                        &&& 0 <= j < given.len()
                        &&& !regex_ok(given[j])
                        &&& e matches CleanError::BadPattern { pattern } && pattern@ == given[j]
                        &&& forall|k: int| 0 <= k < j ==> regex_ok(#[trigger] given[k])
                    })
            }),
    {
        let ghost given = given_patterns(skip_patterns);
        let pats: Vec<String> = match skip_patterns {
            Option::None => Vec::new(),
            Option::Some(v) => v,
        };
        proof {
            assert(given =~= pats@.map_values(|p: String| p@));
            assert(given.len() == pats@.len());
        }
        let mut compiled: Vec<regex::Regex> = Vec::new();
        let mut i: usize = 0;
        proof {
            assert(pattern_srcs(compiled@) =~= given.take(0));
        }
        while i < pats.len()
            invariant
                0 <= i <= pats@.len(),
                given == given_patterns(skip_patterns),
                given == pats@.map_values(|p: String| p@),
                given.len() == pats@.len(),
                compiled@.len() == i as int,
                pattern_srcs(compiled@) == given.take(i as int),
                forall|k: int| 0 <= k < i ==> regex_ok(#[trigger] given[k]),
            decreases pats@.len() - i,
        {
            match compile_pattern(pats[i].as_str()) {
                Option::None => {
                    let bad = CleanError::BadPattern { pattern: pats[i].clone() };
                    proof {
                        assert(given[i as int] == pats@[i as int]@);
                        assert(!regex_ok(given[i as int]));
                        assert(0 <= i as int && (i as int) < given.len());
                        assert(bad matches CleanError::BadPattern { pattern } && pattern@
                            == given[i as int]);
                        assert((exists|j: int|
                            {
                                &&& 0 <= j < given.len()
                                &&& !regex_ok(given[j])
                                &&& bad matches CleanError::BadPattern { pattern } && pattern@
                                    == given[j]
                                &&& forall|k: int| 0 <= k < j ==> regex_ok(#[trigger] given[k])
                            }));
                    }
                    return Err(bad);
                },
                Option::Some(re) => {
                    let ghost reg = re;
                    let ghost pre = compiled@;
                    compiled.push(re);
                    proof {
                        assert(compiled@ == pre.push(reg));
                        assert(given[i as int] == pats@[i as int]@);
                        assert(regex_src(reg) == pats@[i as int]@);
                        assert forall|k: int| 0 <= k < i as int + 1 implies pattern_srcs(
                            compiled@,
                        )[k] == given.take(i as int + 1)[k] by {
                            assert(pattern_srcs(compiled@)[k] == regex_src(compiled@[k]));
                            assert(given.take(i as int + 1)[k] == given[k]);
                            if k < i as int {
                                assert(compiled@[k] == pre[k]);
                                assert(pattern_srcs(pre)[k] == given.take(i as int)[k]);
                                assert(regex_src(pre[k]) == given[k]);
                            } else {
                                assert(compiled@[k] == reg);
                            }
                        }
                        assert(pattern_srcs(compiled@).len() == i as int + 1);
                        assert(pattern_srcs(compiled@) =~= given.take(i as int + 1));
                    }
                },
            }
            i = i + 1;
        }
        proof {
            assert(given.take(pats@.len() as int) =~= given);
        }
        Ok(
            Cleaner {
                path,
                delete,
                quiet,
                ignore_errors,
                skip_nested,
                skip_patterns: compiled,
                calculate_size,
                total_size: 0,
            },
        )
    }

    /// Resolves the root scope and walks the snapshot; `r.2` says whether the
    /// walk ran at all (it does not when the root's rule file is broken).
    fn walk_root(&self, root: &DirTree) -> (r: (Plan, Outcome, bool))
        ensures
            ({
                let w = clean_v(self@, *root);
                &&& r.0@.deletes == w.deletes
                &&& r.0@.reports == w.reports
                &&& r.0@.notes == w.notes
                &&& r.0@.bytes == w.bytes
                &&& r.1@ == w.outcome
                &&& r.2 == !root_rules_broken(*root)
            }),
    {
        let ghost w = clean_v(self@, *root);
        let mut plan = Plan {
            deletes: Vec::new(),
            reports: Vec::new(),
            notes: Vec::new(),
            total_bytes: 0,
        };
        match &root.rules {
            RuleSource::Absent => {
                let outcome = run_dir(self, &self.path, root, Option::None, &mut plan);
                proof {
                    lemma_walk_dir_bounded(self@.cfg(), self.path@, *root, Option::None);
                    assert(plan@ =~= (PlanV {
                        deletes: w.deletes,
                        reports: w.reports,
                        notes: w.notes,
                        bytes: w.bytes,
                    }));
                }
                (plan, outcome, true)
            },
            RuleSource::Unreadable => {
                plan.notes.push(Note { kind: NoteKind::RuleFileBroken, dir: self.path.clone() });
                proof {
                    assert(plan@.notes =~= w.notes);
                    assert(plan@.deletes =~= w.deletes);
                    assert(plan@.reports =~= w.reports);
                }
                (plan, Outcome::Done, false)
            },
            RuleSource::Text(txt) => {
                match compile_rules(self.path.as_str(), txt.as_str()) {
                    Option::None => {
                        plan.notes.push(
                            Note { kind: NoteKind::RuleFileBroken, dir: self.path.clone() },
                        );
                        proof {
                            assert(plan@.notes =~= w.notes);
                            assert(plan@.deletes =~= w.deletes);
                            assert(plan@.reports =~= w.reports);
                        }
                        (plan, Outcome::Done, false)
                    },
                    Option::Some(matcher) => {
                        let outcome = run_dir(
                            self,
                            &self.path,
                            root,
                            Option::Some(&matcher),
                            &mut plan,
                        );
                        proof {
                            assert(scope_view(Option::Some(&matcher)) == Option::Some(
                                ScopeV { root: self.path@, rules: txt@ },
                            ));
                            lemma_walk_dir_bounded(
                                self@.cfg(),
                                self.path@,
                                *root,
                                Option::Some(ScopeV { root: self.path@, rules: txt@ }),
                            );
                            assert(plan@ =~= (PlanV {
                                deletes: w.deletes,
                                reports: w.reports,
                                notes: w.notes,
                                bytes: w.bytes,
                            }));
                        }
                        (plan, outcome, true)
                    },
                }
            },
        }
    }

    /// One run over a snapshot of the configured root directory.
    ///
    /// The returned plan lists exactly what the walk decided: it does not
    /// depend on the delete flag, so a dry run and a deleting run plan the
    /// same work.  The byte total is added to the cleaner's running total;
    /// the total line's text is owed exactly when measuring was requested,
    /// the walk ran and it ended well.
    pub fn clean(&mut self, root: &DirTree) -> (r: CleanResult)
        ensures
            ({
                let w = clean_v(old(self)@, *root);
                &&& r.plan@.deletes == w.deletes
                &&& r.plan@.reports == w.reports
                &&& r.plan@.notes == w.notes
                &&& r.plan@.bytes == w.bytes
                &&& r.outcome@ == w.outcome
                &&& final(self)@ == (CleanerV {
                    total_size: sat_add_n(old(self)@.total_size, w.bytes),
                    ..old(self)@
                })
                &&& (r.total_text matches Some(s) ==> s@ == human_of(final(self).total_size))
                &&& (r.total_text is Some <==> (old(self).calculate_size && w.outcome is Done
                    && !root_rules_broken(*root)))
            }),
    {
        let (plan, outcome, ran) = self.walk_root(root);
        self.total_size = sat_add_u64(self.total_size, plan.total_bytes);
        let done = matches!(outcome, Outcome::Done);
        let total_text = if self.calculate_size && ran && done {
            Option::Some(human_size(self.total_size))
        } else {
            Option::None
        };
        CleanResult { plan, outcome, total_text }
    }
}

} // verus!
