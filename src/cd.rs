//! Scoped change of the working directory.
//!
//! The working directory is process-wide state; `WorkingDir` stands for it
//! as a value. A `CdGuard` records the directory that was current when it
//! was made, and ending the guard sets that directory back. `restore` takes
//! the guard by value, so each guard restores at most once.
use vstd::prelude::*;

verus! {

/// The process's working directory.
pub struct WorkingDir {
    current: String,
}

impl View for WorkingDir {
    type V = Seq<char>;

    closed spec fn view(&self) -> Seq<char> {
        self.current@
    }
}

impl WorkingDir {
    /// The working directory, currently `current`.
    pub fn new(current: String) -> (r: Self)
        ensures
            r@ == current@,
    {
        WorkingDir { current }
    }

    /// The path of the working directory.
    pub fn current(&self) -> (r: &String)
        ensures
            r@ == self@,
    {
        &self.current
    }
}

/// The working directory after `cd` to `target` while `cwd` is current, and
/// the directory that the guard records.
pub open spec fn cd_result(cwd: Seq<char>, target: Seq<char>) -> (Seq<char>, Seq<char>) {
    (target, cwd)
}

/// The working directory after a guard that recorded `original` ends while
/// `current` is current: `original`, whatever `current` is.
pub open spec fn end_result(original: Seq<char>, current: Seq<char>) -> Seq<char> {
    original
}

/// Changes the working directory for a scope, and remembers the one to go
/// back to.
pub struct CdGuard {
    original_cwd: String,
}

impl CdGuard {
    /// The directory that this guard sets back when it ends.
    pub closed spec fn original(&self) -> Seq<char> {
        self.original_cwd@
    }

    /// Records the current directory of `wd`, then makes `path` current.
    pub fn new(wd: &mut WorkingDir, path: &str) -> (g: Self)
        ensures
            (final(wd)@, g.original()) == cd_result(old(wd)@, path@),
    {
        let original_cwd = wd.current.clone();
        wd.current = String::from_str(path);
        CdGuard { original_cwd }
    }

    /// The directory that this guard sets back when it ends.
    pub fn original_cwd(&self) -> (r: &String)
        ensures
            r@ == self.original(),
    {
        &self.original_cwd
    }

    /// Ends the guard: the directory it recorded becomes current again.
    pub fn restore(self, wd: &mut WorkingDir)
        ensures
            final(wd)@ == end_result(self.original(), old(wd)@),
    {
        wd.current = self.original_cwd;
    }
}

/// Changes the working directory of `wd` to `path` until the returned
/// guard ends.
pub fn cd(wd: &mut WorkingDir, path: &str) -> (g: CdGuard)
    ensures
        (final(wd)@, g.original()) == cd_result(old(wd)@, path@),
{
    CdGuard::new(wd, path)
}

/// A guard's scope leaves the working directory as it found it: inside, the
/// target is current; once the guard ends, whatever the scope did in
/// between, the directory from before `cd` is current again.
pub proof fn lemma_guard_restores(cwd0: Seq<char>, target: Seq<char>, during: Seq<char>)
    ensures
        cd_result(cwd0, target).0 == target,
        end_result(cd_result(cwd0, target).1, during) == cwd0,
{
}

/// The working directory after guards for `targets` are made one inside
/// the other, starting while `cwd` is current, and end innermost first.
pub open spec fn after_nested_scopes(cwd: Seq<char>, targets: Seq<Seq<char>>) -> Seq<char>
    decreases targets.len(),
{
    if targets.len() == 0 {
        cwd
    } else {
        let (inside, recorded) = cd_result(cwd, targets[0]);
        end_result(recorded, after_nested_scopes(inside, targets.skip(1)))
    }
}

/// Nested guards compose: each restores the directory that was current
/// when it was made, so when all have ended the first one is current again.
pub proof fn lemma_nested_guards_restore(cwd0: Seq<char>, targets: Seq<Seq<char>>)
    ensures
        after_nested_scopes(cwd0, targets) == cwd0,
{
}

} // verus!
