//! Endpoint probing: for each target a fixed list of sensitive paths is
//! asked for, one after the other, and every path that answers with a
//! success status is a finding.

use crate::config::VulnScanner as VulnScannerConfig;
use crate::outcome::FetchOutcome;
use crate::sequences::lemma_flatten_take_next;
use crate::text::appended;
use vstd::prelude::*;

verus! {

/// The pause between two probes of one target, in milliseconds.
pub const PROBE_DELAY_MILLIS: u64 = 100;

/// How many paths are probed per target.
pub const PROBE_COUNT: usize = 9;

/// A finding as contracts see it: the URL that answered, and its status.
pub type Finding = (Seq<char>, u16);

/// The findings that a vector holds.
pub open spec fn findings(items: Seq<(String, u16)>) -> Seq<Finding> {
    items.map_values(|e: (String, u16)| (e.0@, e.1))
}

/// The sensitive paths, in the order in which they are probed.
pub open spec fn probe_paths() -> Seq<Seq<char>> {
    seq![
        "/admin"@,
        "/phpmyadmin"@,
        "/wp-admin"@,
        "/.git"@,
        "/.env"@,
        "/config.php"@,
        "/backup"@,
        "/sql"@,
        "/database"@,
    ]
}

/// Whether a status reports success: the statuses from 200 to 299.
pub open spec fn is_success_status(status: u16) -> bool {
    200 <= status < 300
}

/// The request that probes `path` on `target`.
pub open spec fn probe_url_of(target: Seq<char>, path: Seq<char>) -> Seq<char> {
    target + path
}

/// What probe `index` of `target` comes to: a finding where there is a
/// path of that rank and the probe was answered with a success status.
pub open spec fn finding_of(target: Seq<char>, index: int, outcome: FetchOutcome<u16>) -> Option<
    Finding,
> {
    match outcome {
        FetchOutcome::Fetched(status) => if 0 <= index < probe_paths().len() && is_success_status(
            status,
        ) {
            Some((probe_url_of(target, probe_paths()[index]), status))
        } else {
            None
        },
        FetchOutcome::Failed(_) => None,
    }
}

/// The findings among the first `count` probes of `target`, in order.
pub open spec fn findings_among(target: Seq<char>, outcomes: Seq<FetchOutcome<u16>>, count: nat) -> Seq<
    Finding,
>
    decreases count,
{
    if count == 0 || count > outcomes.len() || count > probe_paths().len() {
        Seq::empty()
    } else {
        let earlier = findings_among(target, outcomes, (count - 1) as nat);
        match finding_of(target, count - 1, outcomes[count - 1]) {
            Some(finding) => earlier.push(finding),
            None => earlier,
        }
    }
}

/// How many of `given` outcomes count: no more than there are paths.
pub open spec fn probes_counted(given: nat) -> nat {
    if given <= probe_paths().len() {
        given
    } else {
        probe_paths().len()
    }
}

/// The findings of one target over the outcomes of its probes.
pub open spec fn target_findings(target: Seq<char>, outcomes: Seq<FetchOutcome<u16>>) -> Seq<
    Finding,
> {
    findings_among(target, outcomes, probes_counted(outcomes.len()))
}

/// The findings of a whole scan, target after target.
pub open spec fn scan_findings(targets: Seq<(String, Vec<FetchOutcome<u16>>)>) -> Seq<Finding> {
    targets.map_values(
        |t: (String, Vec<FetchOutcome<u16>>)| target_findings(t.0@, t.1@),
    ).flatten()
}

/// Whether a status reports success.
pub fn is_success(status: u16) -> (success: bool)
    ensures
        success == is_success_status(status),
{
    200 <= status && status < 300
}

/// The sensitive path of rank `index`, if there is one.
pub fn probe_path(index: usize) -> (path: Option<&'static str>)
    ensures
        match path {
            Some(p) => index < PROBE_COUNT && p@ == probe_paths()[index as int],
            None => index >= PROBE_COUNT,
        },
{
    if index == 0 {
        Some("/admin")
    } else if index == 1 {
        Some("/phpmyadmin")
    } else if index == 2 {
        Some("/wp-admin")
    } else if index == 3 {
        Some("/.git")
    } else if index == 4 {
        Some("/.env")
    } else if index == 5 {
        Some("/config.php")
    } else if index == 6 {
        Some("/backup")
    } else if index == 7 {
        Some("/sql")
    } else if index == 8 {
        Some("/database")
    } else {
        None
    }
}

/// The endpoint prober of one configuration.
pub struct VulnScanner {
    config: VulnScannerConfig,
}

impl View for VulnScanner {
    type V = VulnScannerConfig;

    closed spec fn view(&self) -> VulnScannerConfig {
        self.config
    }
}

impl VulnScanner {
    /// A prober that works under `config`.
    pub fn new(config: VulnScannerConfig) -> (scanner: Self)
        ensures
            scanner@ == config,
    {
        Self { config }
    }

    /// How many targets may be probed at once.
    pub fn threads(&self) -> (threads: u32)
        ensures
            threads == self@.threads,
    {
        self.config.threads
    }

    /// The time limit of one request, in seconds.
    pub fn timeouts(&self) -> (seconds: u32)
        ensures
            seconds == self@.timeouts,
    {
        self.config.timeouts
    }

    /// The requests that probe `target`, in order.
    pub fn probe_urls(target: &str) -> (urls: Vec<String>)
        ensures
            urls.len() == PROBE_COUNT,
            forall|i: int|
                0 <= i < PROBE_COUNT ==> (#[trigger] urls@[i])@ == probe_url_of(
                    target@,
                    probe_paths()[i],
                ),
    {
        let mut urls: Vec<String> = Vec::new();
        let mut i: usize = 0;
        while i < PROBE_COUNT
            invariant
                i <= PROBE_COUNT,
                urls.len() == i,
                forall|j: int|
                    0 <= j < i ==> (#[trigger] urls@[j])@ == probe_url_of(
                        target@,
                        probe_paths()[j],
                    ),
            decreases PROBE_COUNT - i,
        {
            match probe_path(i) {
                Some(path) => {
                    urls.push(appended(target, path));
                },
                None => {},
            }
            i = i + 1;
        }
        urls
    }

    /// What one probe comes to: a finding where it was answered with a
    /// success status.
    pub fn assess(target: &str, index: usize, outcome: &FetchOutcome<u16>) -> (finding: Option<
        (String, u16),
    >)
        ensures
            match finding {
                Some(found) => finding_of(target@, index as int, *outcome) == Some(
                    (found.0@, found.1),
                ),
                None => finding_of(target@, index as int, *outcome) is None,
            },
    {
        match outcome {
            FetchOutcome::Fetched(status) => {
                match probe_path(index) {
                    Some(path) => {
                        if is_success(*status) {
                            Some((appended(target, path), *status))
                        } else {
                            None
                        }
                    },
                    None => None,
                }
            },
            FetchOutcome::Failed(_) => None,
        }
    }

    /// The findings of one target: `outcomes[i]` is what the probe of the
    /// `i`-th path brought. A probe that failed or was answered with
    /// another status is no finding; outcomes beyond the last path count
    /// for nothing.
    pub fn scan_target(target: &str, outcomes: &Vec<FetchOutcome<u16>>) -> (found: Vec<(String, u16)>)
        ensures
            findings(found@) == target_findings(target@, outcomes@),
    {
        let n: usize = if outcomes.len() <= PROBE_COUNT {
            outcomes.len()
        } else {
            PROBE_COUNT
        };
        let mut found: Vec<(String, u16)> = Vec::new();
        let mut i: usize = 0;
        assert(findings(found@) =~= findings_among(target@, outcomes@, 0));
        while i < n
            invariant
                i <= n,
                n == probes_counted(outcomes@.len()),
                findings(found@) == findings_among(target@, outcomes@, i as nat),
            decreases n - i,
        {
            let ghost before = found@;
            match Self::assess(target, i, &outcomes[i]) {
                Some(finding) => {
                    found.push(finding);
                    assert(findings(found@) =~= findings(before).push((finding.0@, finding.1)));
                },
                None => {},
            }
            i = i + 1;
        }
        found
    }

    /// A whole scan over what the probes have brought: each target with the
    /// outcomes of its probes. The findings come target after target.
    pub fn run(&self, targets: Vec<(String, Vec<FetchOutcome<u16>>)>) -> (found: Vec<(String, u16)>)
        ensures
            findings(found@) == scan_findings(targets@),
    {
        let ghost all = targets@;
        let ghost rows = all.map_values(
            |t: (String, Vec<FetchOutcome<u16>>)| target_findings(t.0@, t.1@),
        );
        let mut found: Vec<(String, u16)> = Vec::new();
        assert(findings(found@) =~= rows.take(0).flatten());
        for entry in it: targets
            invariant
                it.seq() == all,
                rows == all.map_values(
                    |t: (String, Vec<FetchOutcome<u16>>)| target_findings(t.0@, t.1@),
                ),
                findings(found@) == rows.take(it.index()).flatten(),
        {
            let ghost k = it.index();
            let ghost before = found@;
            let mut batch = Self::scan_target(entry.0.as_str(), &entry.1);
            let ghost added = batch@;
            found.append(&mut batch);
            proof {
                assert(rows[k] == findings(added));
                assert(findings(found@) =~= findings(before) + findings(added));
                lemma_flatten_take_next(rows, k);
            }
        }
        proof {
            assert(rows.take(rows.len() as int) =~= rows);
        }
        found
    }
}

} // verus!
