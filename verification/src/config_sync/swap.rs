//! Undoing a partly done swap of config files.
//!
//! Each file is swapped in two renames: the current file (if any) to a
//! rollback copy, then the new file (if any) from its temporary copy into
//! place.  When any step of any file fails, every file is put back.

use vstd::prelude::*;

verus! {

/// What undoing one file's swap does.
#[derive(Debug, Clone, Copy, PartialEq, Eq, Structural)]
pub struct RollbackStep {
    /// Remove the file now at the target path.
    pub remove_target: bool,
    /// Move the rollback copy back to the target path.
    pub restore_rollback: bool,
    /// Remove the temporary copy of the new file.
    pub remove_temp: bool,
}

/// The undo of one file, given whether its swap started (`touched`),
/// whether its old file was moved aside (`has_rollback`), whether it had
/// an old file (`target_existed`), and what is now on disk.
pub open spec fn rollback_spec(
    touched: bool,
    has_rollback: bool,
    target_existed: bool,
    target_exists: bool,
    temp_exists: bool,
) -> RollbackStep {
    if !touched {
        RollbackStep { remove_target: false, restore_rollback: false, remove_temp: temp_exists }
    } else if has_rollback {
        RollbackStep { remove_target: target_exists, restore_rollback: true, remove_temp: temp_exists }
    } else {
        RollbackStep {
            remove_target: !target_existed && target_exists,
            restore_rollback: false,
            remove_temp: temp_exists,
        }
    }
}

/// How to undo one file's swap.
pub fn rollback_step(
    touched: bool,
    has_rollback: bool,
    target_existed: bool,
    target_exists: bool,
    temp_exists: bool,
) -> (r: RollbackStep)
    ensures
        r == rollback_spec(touched, has_rollback, target_existed, target_exists, temp_exists),
{
    if !touched {
        RollbackStep { remove_target: false, restore_rollback: false, remove_temp: temp_exists }
    } else if has_rollback {
        RollbackStep { remove_target: target_exists, restore_rollback: true, remove_temp: temp_exists }
    } else {
        RollbackStep {
            remove_target: !target_existed && target_exists,
            restore_rollback: false,
            remove_temp: temp_exists,
        }
    }
}

/// One file on disk: what the target path, the rollback copy and the
/// temporary copy hold (`None` where there is no file; a content is
/// named by a number).
pub struct SwapFiles {
    pub target: Option<u64>,
    pub rollback: Option<u64>,
    pub temp: Option<u64>,
}

/// The files after the undo's actions: the target removed, then the
/// rollback copy renamed onto it, then the temporary copy removed.
pub open spec fn after_rollback(f: SwapFiles, a: RollbackStep) -> SwapFiles {
    let t = if a.remove_target { None } else { f.target };
    let (t2, rb) = if a.restore_rollback { (f.rollback, None) } else { (t, f.rollback) };
    SwapFiles { target: t2, rollback: rb, temp: if a.remove_temp { None } else { f.temp } }
}

/// Where a file's swap can stop, given its old content `old` and its new
/// one `new` (`None`: the file is to be removed), after `done` of its
/// steps: 0, not started; 1, started; 2, old file moved aside; 3, new file
/// moved in.  Gives the files on disk, whether the swap started, and
/// whether the old file was moved aside.
pub open spec fn swap_reached(old: Option<u64>, new: Option<u64>, done: int) -> (SwapFiles, bool, bool) {
    if done <= 1 {
        (SwapFiles { target: old, rollback: None, temp: new }, done == 1, false)
    } else if done == 2 {
        match old {
            Some(_) => (SwapFiles { target: None, rollback: old, temp: new }, true, true),
            None => (SwapFiles { target: old, rollback: None, temp: new }, true, false),
        }
    } else {
        match new {
            Some(_) => (SwapFiles { target: new, rollback: old, temp: None }, true, old is Some),
            None => match old {
                Some(_) => (SwapFiles { target: None, rollback: old, temp: None }, true, true),
                None => (SwapFiles { target: None, rollback: None, temp: None }, true, false),
            },
        }
    }
}

/// Undoing puts a file back wherever its swap stopped: the old content is
/// at the target path again (or nothing, where there was no old file),
/// and neither the rollback copy nor the temporary copy is left.
pub proof fn law_rollback_restores_file(old: Option<u64>, new: Option<u64>, done: int)
    requires
        0 <= done <= 3,
    ensures
        ({
            let (f, touched, has_rollback) = swap_reached(old, new, done);
            let a = rollback_spec(
                touched,
                has_rollback,
                old is Some,
                f.target is Some,
                f.temp is Some,
            );
            after_rollback(f, a) == SwapFiles { target: old, rollback: None, temp: None }
        }),
{
}

/// How far the swap of file `i` of a transaction got when it stopped at
/// file `stopped`, after `done` of that file's steps: the files before it
/// are swapped, the files after it untouched.
pub open spec fn steps_done(stopped: int, done: int, i: int) -> int {
    if i < stopped {
        3
    } else if i == stopped {
        done
    } else {
        0
    }
}

/// A multi-file swap is all or nothing.  When it stops anywhere, from a
/// failed rename to a failed check after every file was moved in, undoing
/// it puts every file back as it was, with no rollback or temporary copy
/// left; when it completes, every target holds its new content.
pub proof fn law_transaction_all_or_nothing(
    files: Seq<(Option<u64>, Option<u64>)>,
    stopped: int,
    done: int,
)
    requires
        0 <= stopped <= files.len(),
        0 <= done <= 3,
    ensures
        forall|i: int|
            #![trigger files[i]]
            0 <= i < files.len() ==> {
                let (f, touched, has_rollback) = swap_reached(
                    files[i].0,
                    files[i].1,
                    steps_done(stopped, done, i),
                );
                after_rollback(
                    f,
                    rollback_spec(
                        touched,
                        has_rollback,
                        files[i].0 is Some,
                        f.target is Some,
                        f.temp is Some,
                    ),
                ) == SwapFiles { target: files[i].0, rollback: None, temp: None }
            },
        forall|i: int|
            0 <= i < files.len() ==> (#[trigger] swap_reached(files[i].0, files[i].1, 3)).0.target
                == files[i].1,
{
    assert forall|i: int| #![trigger files[i]] 0 <= i < files.len() implies {
        let (f, touched, has_rollback) = swap_reached(
            files[i].0,
            files[i].1,
            steps_done(stopped, done, i),
        );
        after_rollback(
            f,
            rollback_spec(touched, has_rollback, files[i].0 is Some, f.target is Some, f.temp is Some),
        ) == SwapFiles { target: files[i].0, rollback: None, temp: None }
    } by {
        law_rollback_restores_file(files[i].0, files[i].1, steps_done(stopped, done, i));
    }
}

} // verus!
