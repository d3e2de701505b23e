//! The console of git invocations: a bounded log, oldest entry first, that
//! drops its oldest entry when full.
use vstd::prelude::*;
use crate::text::{chars_of, push_all};
use crate::types::ConsoleEntry;

verus! {

/// How many invocations the console keeps, across all repositories.
pub const CONSOLE_CAP: usize = 500;

/// The view of a `ConsoleEntry`: (root, args, ok, at_ms).
pub open spec fn entry_view(e: ConsoleEntry) -> (Seq<char>, Seq<char>, bool, u64) {
    (e.root@, e.args@, e.ok, e.at_ms)
}

/// The recorded invocations, oldest first, at most `CONSOLE_CAP` of them.
pub struct ConsoleLog {
    entries: Vec<ConsoleEntry>,
}

impl View for ConsoleLog {
    type V = Seq<(Seq<char>, Seq<char>, bool, u64)>;

    closed spec fn view(&self) -> Self::V {
        self.entries@.map_values(|e: ConsoleEntry| entry_view(e))
    }
}

impl ConsoleLog {
    /// The log holds at most `CONSOLE_CAP` entries.
    pub closed spec fn wf(&self) -> bool {
        self.entries@.len() <= CONSOLE_CAP
    }
}

/// A new, empty console log.
pub fn console_log() -> (log: ConsoleLog)
    ensures
        log.wf(),
        log@ == Seq::<(Seq<char>, Seq<char>, bool, u64)>::empty(),
{
    let log = ConsoleLog { entries: Vec::new() };
    assert(log@ =~= Seq::<(Seq<char>, Seq<char>, bool, u64)>::empty());
    log
}

/// `SystemTime::elapsed` of the Unix epoch: the milliseconds since the
/// epoch now, none when the clock is before it. The result depends on the
/// clock, so nothing is stated of it.
#[verifier::external_body]
fn epoch_elapsed_millis() -> (r: Option<u128>) {
    std::time::UNIX_EPOCH.elapsed().ok().map(|d| d.as_millis())
}

/// The time of a recorded invocation: milliseconds since the Unix epoch
/// now, cut to 64 bits; 0 when the clock is before the epoch.
pub fn now_ms() -> (r: u64) {
    match crate::repo::system_time_millis(epoch_elapsed_millis()) {
        Some(ms) => ms,
        None => 0,
    }
}

/// `parts` joined with single spaces between them (`[&str]::join(" ")`).
pub open spec fn join_spaces(parts: Seq<Seq<char>>) -> Seq<char>
    decreases parts.len(),
{
    if parts.len() == 0 {
        Seq::<char>::empty()
    } else if parts.len() == 1 {
        parts[0]
    } else {
        join_spaces(parts.drop_last()) + seq![' '] + parts.last()
    }
}

/// The arguments of an invocation joined with single spaces.
pub fn join_args(args: &Vec<String>) -> (r: String)
    ensures
        r@ == join_spaces(args@.map_values(|s: String| s@)),
{
    let ghost av = args@.map_values(|s: String| s@);
    let mut r = String::new();
    let mut i: usize = 0;
    assert(av.take(0) =~= Seq::<Seq<char>>::empty());
    while i < args.len()
        invariant
            0 <= i <= args.len(),
            av == args@.map_values(|s: String| s@),
            r@ == join_spaces(av.take(i as int)),
        decreases args.len() - i,
    {
        assert(av.take(i as int + 1).drop_last() =~= av.take(i as int));
        assert(av.take(i as int + 1).last() == args@[i as int]@);
        if i > 0 {
            r.push(' ');
        }
        push_all(&mut r, &chars_of(args[i].as_str()));
        i += 1;
    }
    assert(av.take(args.len() as int) =~= av);
    r
}

/// The log after recording one invocation: the oldest entry dropped when
/// the log is full, then the new entry appended.
pub open spec fn recorded(
    old_log: Seq<(Seq<char>, Seq<char>, bool, u64)>,
    entry: (Seq<char>, Seq<char>, bool, u64),
) -> Seq<(Seq<char>, Seq<char>, bool, u64)> {
    if old_log.len() >= CONSOLE_CAP {
        old_log.drop_first().push(entry)
    } else {
        old_log.push(entry)
    }
}

/// Records one git invocation against `repo`: its arguments joined with
/// spaces, whether it succeeded and when (milliseconds since the epoch).
pub fn record_console(log: &mut ConsoleLog, repo: &str, args: &Vec<String>, ok: bool, at_ms: u64)
    requires
        old(log).wf(),
    ensures
        final(log).wf(),
        final(log)@ == recorded(
            old(log)@,
            (repo@, join_spaces(args@.map_values(|s: String| s@)), ok, at_ms),
        ),
{
    let entry = ConsoleEntry {
        root: crate::text::string_of(&chars_of(repo)),
        args: join_args(args),
        ok,
        at_ms,
    };
    let ghost before = log@;
    if log.entries.len() >= CONSOLE_CAP {
        log.entries.remove(0);
        assert(log.entries@.map_values(|e: ConsoleEntry| entry_view(e)) =~= before.drop_first());
    }
    let ghost mid = log.entries@;
    log.entries.push(entry);
    assert(log.entries@.map_values(|e: ConsoleEntry| entry_view(e)) =~= mid.map_values(
        |e: ConsoleEntry| entry_view(e),
    ).push(entry_view(entry)));
}

fn copy_entry(e: &ConsoleEntry) -> (r: ConsoleEntry)
    ensures
        entry_view(r) == entry_view(*e),
{
    ConsoleEntry { root: e.root.clone(), args: e.args.clone(), ok: e.ok, at_ms: e.at_ms }
}

/// The entries recorded against `repo`, oldest first.
pub open spec fn entries_for(
    log: Seq<(Seq<char>, Seq<char>, bool, u64)>,
    repo: Seq<char>,
) -> Seq<(Seq<char>, Seq<char>, bool, u64)> {
    log.filter(|e: (Seq<char>, Seq<char>, bool, u64)| e.0 == repo)
}

/// The recent invocations against `repo`, oldest first.
pub fn get_console_log(log: &ConsoleLog, repo: &str) -> (r: Vec<ConsoleEntry>)
    ensures
        r@.map_values(|e: ConsoleEntry| entry_view(e)) == entries_for(log@, repo@),
{
    let ghost all = log@;
    let ghost pred = |e: (Seq<char>, Seq<char>, bool, u64)| e.0 == repo@;
    let mut r: Vec<ConsoleEntry> = Vec::new();
    let mut i: usize = 0;
    assert(all.take(0) =~= Seq::<(Seq<char>, Seq<char>, bool, u64)>::empty());
    assert(all.take(0).filter(pred) =~= Seq::<(Seq<char>, Seq<char>, bool, u64)>::empty());
    while i < log.entries.len()
        invariant
            0 <= i <= log.entries.len(),
            all == log@,
            all == log.entries@.map_values(|e: ConsoleEntry| entry_view(e)),
            pred == (|e: (Seq<char>, Seq<char>, bool, u64)| e.0 == repo@),
            r@.map_values(|e: ConsoleEntry| entry_view(e)) == all.take(i as int).filter(pred),
        decreases log.entries.len() - i,
    {
        assert(all.take(i as int + 1).drop_last() =~= all.take(i as int));
        assert(all.take(i as int + 1).last() == entry_view(log.entries@[i as int]));
        reveal_with_fuel(Seq::filter, 1);
        let e = &log.entries[i];
        if e.root == repo.to_string() {
            let c = copy_entry(e);
            let ghost before = r@.map_values(|e: ConsoleEntry| entry_view(e));
            r.push(c);
            assert(r@.map_values(|e: ConsoleEntry| entry_view(e)) =~= before.push(entry_view(c)));
        }
        i += 1;
    }
    assert(all.take(log.entries.len() as int) =~= all);
    r
}

/// Recording keeps the log within `CONSOLE_CAP` entries, appends the new
/// entry last, and keeps every earlier entry but, when the log was full, the
/// oldest.
pub proof fn law_record_bounded(
    old_log: Seq<(Seq<char>, Seq<char>, bool, u64)>,
    entry: (Seq<char>, Seq<char>, bool, u64),
)
    requires
        old_log.len() <= CONSOLE_CAP,
    ensures
        recorded(old_log, entry).len() <= CONSOLE_CAP,
        recorded(old_log, entry).last() == entry,
        old_log.len() < CONSOLE_CAP ==> recorded(old_log, entry).drop_last() == old_log,
        old_log.len() == CONSOLE_CAP ==> recorded(old_log, entry).drop_last()
            == old_log.drop_first(),
{
    assert(old_log.push(entry).drop_last() =~= old_log);
    if old_log.len() > 0 {
        assert(old_log.drop_first().push(entry).drop_last() =~= old_log.drop_first());
    }
}

/// Recording against one repository leaves what another repository's view
/// of the console shows unchanged while the log is not full.
pub proof fn law_record_other_repo_untouched(
    old_log: Seq<(Seq<char>, Seq<char>, bool, u64)>,
    entry: (Seq<char>, Seq<char>, bool, u64),
    other: Seq<char>,
)
    requires
        old_log.len() < CONSOLE_CAP,
        entry.0 != other,
    ensures
        entries_for(recorded(old_log, entry), other) == entries_for(old_log, other),
{
    let pred = |e: (Seq<char>, Seq<char>, bool, u64)| e.0 == other;
    assert(old_log.push(entry).drop_last() =~= old_log);
    reveal_with_fuel(Seq::filter, 1);
}


/// What one records against a repository is what that repository's view of
/// the console shows last.
pub proof fn law_recorded_shows_last(
    old_log: Seq<(Seq<char>, Seq<char>, bool, u64)>,
    entry: (Seq<char>, Seq<char>, bool, u64),
)
    ensures
        entries_for(recorded(old_log, entry), entry.0).len() > 0,
        entries_for(recorded(old_log, entry), entry.0).last() == entry,
{
    let base = if old_log.len() >= CONSOLE_CAP {
        old_log.drop_first()
    } else {
        old_log
    };
    assert(recorded(old_log, entry) == base.push(entry));
    assert(base.push(entry).drop_last() =~= base);
    reveal_with_fuel(Seq::filter, 1);
}

} // verus!
