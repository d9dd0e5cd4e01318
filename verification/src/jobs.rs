//! Which job to run, and with how many workers.

use vstd::prelude::*;

verus! {

/// The jobs the tool can run on each file.
#[derive(PartialEq, Eq, Structural, Clone, Copy, Debug)]
pub enum Job {
    /// Compare stored digests with freshly computed ones.
    Check,
    /// List files that lack a stored digest.
    FindUnhashed,
    /// Show the stored digests.
    PrintHashes,
    /// Remove the stored digests.
    ResetHashes,
    /// Compute and store the digests that are missing.
    SetHashes,
}

/// The name that selects a job, on the command line or as the name the
/// program was started under.
pub open spec fn job_label(job: Job) -> Seq<char> {
    match job {
        Job::Check => "checker"@,
        Job::FindUnhashed => "find_unhashed"@,
        Job::PrintHashes => "print_hashes"@,
        Job::ResetHashes => "reset_hashes"@,
        Job::SetHashes => "hasher"@,
    }
}

fn label(job: Job) -> (s: &'static str)
    ensures
        s@ == job_label(job),
{
    match job {
        Job::Check => "checker",
        Job::FindUnhashed => "find_unhashed",
        Job::PrintHashes => "print_hashes",
        Job::ResetHashes => "reset_hashes",
        Job::SetHashes => "hasher",
    }
}

impl Job {
    /// The job that a name selects, if any.
    pub fn from_name(name: &str) -> (r: Option<Job>)
        ensures
            r matches Some(job) ==> job_label(job) == name@,
            r is None ==> forall|job: Job| job_label(job) != name@,
    {
        let given = String::from_str(name);
        let jobs = [Job::Check, Job::FindUnhashed, Job::PrintHashes, Job::ResetHashes, Job::SetHashes];
        let mut i: usize = 0;
        while i < 5
            invariant
                i <= 5,
                given@ == name@,
                jobs@ == seq![Job::Check, Job::FindUnhashed, Job::PrintHashes, Job::ResetHashes, Job::SetHashes],
                forall|j: int| 0 <= j < i ==> job_label(#[trigger] jobs@[j]) != name@,
            decreases 5 - i,
        {
            let job = jobs[i];
            if String::from_str(label(job)) == given {
                return Some(job);
            }
            i = i + 1;
        }
        proof {
            assert forall|job: Job| job_label(job) != name@ by {
                match job {
                    Job::Check => assert(jobs@[0] == job),
                    Job::FindUnhashed => assert(jobs@[1] == job),
                    Job::PrintHashes => assert(jobs@[2] == job),
                    Job::ResetHashes => assert(jobs@[3] == job),
                    Job::SetHashes => assert(jobs@[4] == job),
                }
            }
        }
        None
    }
}

/// The options that choose the job and the number of workers.
pub struct Options {
    pub check_hashes: bool,
    pub find_unhashed: bool,
    pub print_hashes: bool,
    pub reset_hashes: bool,
    pub set_hashes: bool,
    pub threads_count: Option<usize>,
    pub all_threads: bool,
}

/// The job the flags ask for; when several are set, the first in the
/// order check, find unhashed, print, reset, set.
pub open spec fn flagged_job(o: Options) -> Option<Job> {
    if o.check_hashes {
        Some(Job::Check)
    } else if o.find_unhashed {
        Some(Job::FindUnhashed)
    } else if o.print_hashes {
        Some(Job::PrintHashes)
    } else if o.reset_hashes {
        Some(Job::ResetHashes)
    } else if o.set_hashes {
        Some(Job::SetHashes)
    } else {
        None
    }
}

impl Options {
    /// The name of the job the flags ask for, if any.
    pub fn get_job_name(&self) -> (r: Option<String>)
        ensures
            flagged_job(*self) matches Some(job) ==> (r matches Some(s) && s@ == job_label(job)),
            flagged_job(*self) is None ==> r is None,
    {
        let job = if self.check_hashes {
            Job::Check
        } else if self.find_unhashed {
            Job::FindUnhashed
        } else if self.print_hashes {
            Job::PrintHashes
        } else if self.reset_hashes {
            Job::ResetHashes
        } else if self.set_hashes {
            Job::SetHashes
        } else {
            return None;
        };
        Some(String::from_str(label(job)))
    }

    /// How many workers to run: the count given, else as many as
    /// `available` reports when all processors are asked for, else one.
    /// `available` is called only in the second case.
    pub fn get_worker_count(&self, available: impl FnOnce() -> usize) -> (n: usize)
        requires
            call_requires(available, ()),
        ensures
            self.threads_count matches Some(c) ==> n == c,
            self.threads_count is None && self.all_threads ==> call_ensures(available, (), n),
            self.threads_count is None && !self.all_threads ==> n == 1,
    {
        if let Some(count) = self.threads_count {
            return count;
        }
        if self.all_threads {
            return available();
        }
        1
    }
}

/// Each job's name selects that job: the name the flags produce leads
/// back to the job they ask for.
pub proof fn lemma_job_names_select_jobs(job: Job, other: Job)
    ensures
        job_label(job) == job_label(other) <==> job == other,
{
    reveal_strlit("checker");
    reveal_strlit("find_unhashed");
    reveal_strlit("print_hashes");
    reveal_strlit("reset_hashes");
    reveal_strlit("hasher");
    if job != other {
        assert(job_label(job).len() != job_label(other).len() || job_label(job)[0] != job_label(other)[0]
            || job_label(job)[1] != job_label(other)[1]);
    }
}

} // verus!
