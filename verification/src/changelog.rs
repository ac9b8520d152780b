//! Change-log aggregation: from a stream of per-line diff events to per-file
//! change counters and a rendered change-log body.
//!
//! Each diff line carries the file it belongs to (possibly none, as for a
//! binary delta) and an origin character: `'+'` for an added line, `'-'` for
//! a removed line, `' '` for an unchanged (context) line. Any other origin is
//! ignored. One counter triple is kept per file, in order of first
//! appearance, and each file is rendered as `"<path> +<added> -<removed>
//! ~<unchanged>"`.

use vstd::prelude::*;
use vstd::string::StringExecFns;

verus! {

/// One line of a diff: the file it resolves to, if any, and the origin
/// character of the line.
pub struct DiffLineEvent {
    pub path: Option<String>,
    pub origin: char,
}

/// Per-file change counters accumulated from one diff.
pub struct FileChangeCount {
    pub path: String,
    pub added: usize,
    pub removed: usize,
    pub unchanged: usize,
}

/// Mathematical form of one file's counters.
#[verifier::ext_equal]
pub ghost struct FileSummary {
    pub path: Seq<char>,
    pub added: nat,
    pub removed: nat,
    pub unchanged: nat,
}

impl View for FileChangeCount {
    type V = FileSummary;

    open spec fn view(&self) -> FileSummary {
        FileSummary {
            path: self.path@,
            added: self.added as nat,
            removed: self.removed as nat,
            unchanged: self.unchanged as nat,
        }
    }
}

/// The file path an event resolves to, if any.
pub open spec fn event_path(e: DiffLineEvent) -> Option<Seq<char>> {
    match e.path {
        Some(p) => Some(p@),
        None => None,
    }
}

/// Whether one event counts toward the counter of `path` for `origin`.
pub open spec fn is_counted(e: DiffLineEvent, path: Seq<char>, origin: char) -> bool {
    event_path(e) == Some(path) && e.origin == origin
}

/// How many events of the sequence count toward `path` and `origin`.
pub open spec fn count_matching(events: Seq<DiffLineEvent>, path: Seq<char>, origin: char) -> nat
    decreases events.len(),
{
    if events.len() == 0 {
        0
    } else {
        count_matching(events.drop_last(), path, origin) + (if is_counted(
            events.last(),
            path,
            origin,
        ) {
            1nat
        } else {
            0nat
        })
    }
}

/// The distinct file paths of the events, in order of first appearance.
pub open spec fn distinct_paths(events: Seq<DiffLineEvent>) -> Seq<Seq<char>>
    decreases events.len(),
{
    if events.len() == 0 {
        Seq::empty()
    } else {
        let prior = distinct_paths(events.drop_last());
        match event_path(events.last()) {
            Some(p) => if prior.contains(p) {
                prior
            } else {
                prior.push(p)
            },
            None => prior,
        }
    }
}

/// The counters a diff yields for one file.
pub open spec fn summary_of(events: Seq<DiffLineEvent>, path: Seq<char>) -> FileSummary {
    FileSummary {
        path: path,
        added: count_matching(events, path, '+'),
        removed: count_matching(events, path, '-'),
        unchanged: count_matching(events, path, ' '),
    }
}

/// The whole per-file summary of a diff: one entry per file touched, in
/// order of first appearance.
pub open spec fn summary_spec(events: Seq<DiffLineEvent>) -> Seq<FileSummary> {
    distinct_paths(events).map(|i: int, p: Seq<char>| summary_of(events, p))
}

/// A counter never exceeds the number of events.
proof fn lemma_count_le_len(events: Seq<DiffLineEvent>, path: Seq<char>, origin: char)
    ensures
        count_matching(events, path, origin) <= events.len(),
    decreases events.len(),
{
    if events.len() > 0 {
        lemma_count_le_len(events.drop_last(), path, origin);
    }
}

/// A path stands among the distinct paths exactly when some event resolves
/// to it.
proof fn lemma_distinct_paths_complete(events: Seq<DiffLineEvent>, path: Seq<char>)
    ensures
        distinct_paths(events).contains(path) <==> exists|i: int|
            0 <= i < events.len() && event_path(events[i]) == Some(path),
    decreases events.len(),
{
    if events.len() > 0 {
        lemma_distinct_paths_complete(events.drop_last(), path);
        if distinct_paths(events).contains(path) && event_path(events.last()) != Some(path) {
            assert(distinct_paths(events.drop_last()).contains(path));
            let i = choose|i: int|
                0 <= i < events.len() - 1 && event_path(events.drop_last()[i]) == Some(path);
            assert(event_path(events[i]) == Some(path));
        }
        if exists|i: int| 0 <= i < events.len() && event_path(events[i]) == Some(path) {
            let i = choose|i: int| 0 <= i < events.len() && event_path(events[i]) == Some(path);
            if i < events.len() - 1 {
                assert(event_path(events.drop_last()[i]) == Some(path));
                assert(distinct_paths(events.drop_last()).contains(path));
                let prior = distinct_paths(events.drop_last());
                let j = choose|j: int| 0 <= j < prior.len() && prior[j] == path;
                assert(distinct_paths(events)[j] == path);
            } else {
                match event_path(events.last()) {
                    Some(p) => {
                        let prior = distinct_paths(events.drop_last());
                        if !prior.contains(p) {
                            assert(distinct_paths(events).last() == path);
                        } else {
                            let j = choose|j: int| 0 <= j < prior.len() && prior[j] == path;
                            assert(distinct_paths(events)[j] == path);
                        }
                    },
                    None => {},
                }
            }
        }
    }
}

/// A path no event resolves to has zero counters.
proof fn lemma_count_zero_when_absent(events: Seq<DiffLineEvent>, path: Seq<char>, origin: char)
    requires
        forall|i: int| 0 <= i < events.len() ==> event_path(events[i]) != Some(path),
    ensures
        count_matching(events, path, origin) == 0,
    decreases events.len(),
{
    if events.len() > 0 {
        assert(forall|i: int|
            0 <= i < events.len() - 1 ==> event_path(events.drop_last()[i]) != Some(path));
        lemma_count_zero_when_absent(events.drop_last(), path, origin);
    }
}

/// Removing one event lowers the counter it contributes to by exactly its
/// own contribution.
proof fn lemma_count_remove(events: Seq<DiffLineEvent>, j: int, path: Seq<char>, origin: char)
    requires
        0 <= j < events.len(),
    ensures
        count_matching(events, path, origin) == count_matching(events.remove(j), path, origin) + (
        if is_counted(events[j], path, origin) {
            1nat
        } else {
            0nat
        }),
    decreases events.len(),
{
    if j == events.len() - 1 {
        assert(events.remove(j) =~= events.drop_last());
    } else {
        assert(events.remove(j).drop_last() =~= events.drop_last().remove(j));
        assert(events.remove(j).last() == events.last());
        lemma_count_remove(events.drop_last(), j, path, origin);
    }
}

/// The counters depend only on the multiset of events, not on their order.
proof fn lemma_count_permutation(
    s1: Seq<DiffLineEvent>,
    s2: Seq<DiffLineEvent>,
    path: Seq<char>,
    origin: char,
)
    requires
        s1.to_multiset() == s2.to_multiset(),
    ensures
        count_matching(s1, path, origin) == count_matching(s2, path, origin),
    decreases s1.len(),
{
    broadcast use vstd::seq_lib::group_to_multiset_ensures;

    if s1.len() == 0 {
        assert(s1.to_multiset().len() == 0);
        assert(s2.to_multiset().len() == s2.len());
        assert(s2.len() == 0);
    } else {
        let e = s1.last();
        assert(s1 =~= s1.drop_last().push(e));
        assert(s1.to_multiset() =~= s1.drop_last().to_multiset().insert(e));
        assert(s2.to_multiset().count(e) > 0);
        assert(s2.contains(e));
        let j = choose|j: int| 0 <= j < s2.len() && s2[j] == e;
        assert(s1.drop_last().to_multiset() =~= s1.to_multiset().remove(e));
        assert(s2.remove(j).to_multiset() =~= s2.to_multiset().remove(e));
        lemma_count_permutation(s1.drop_last(), s2.remove(j), path, origin);
        lemma_count_remove(s2, j, path, origin);
    }
}

/// Law: the rendered counter triple of a file is commutative with respect
/// to event order: two diffs carrying the same multiset of line events
/// yield the same per-file summary for every file.
pub proof fn lemma_summary_order_independent(
    s1: Seq<DiffLineEvent>,
    s2: Seq<DiffLineEvent>,
    path: Seq<char>,
)
    requires
        s1.to_multiset() == s2.to_multiset(),
    ensures
        summary_of(s1, path) == summary_of(s2, path),
{
    lemma_count_permutation(s1, s2, path, '+');
    lemma_count_permutation(s1, s2, path, '-');
    lemma_count_permutation(s1, s2, path, ' ');
    assert(summary_of(s1, path) =~= summary_of(s2, path));
}

/// Index of the counter entry for `path`, if one exists.
fn find_file(counts: &Vec<FileChangeCount>, path: &String) -> (r: Option<usize>)
    ensures
        match r {
            Some(i) => i < counts@.len() && counts@[i as int].path@ == path@,
            None => forall|i: int| 0 <= i < counts@.len() ==> counts@[i].path@ != path@,
        },
{
    let n = counts.len();
    let mut i: usize = 0;
    while i < n
        invariant
            i <= n,
            n == counts@.len(),
            forall|j: int| 0 <= j < i ==> counts@[j].path@ != path@,
        decreases n - i,
    {
        if counts[i].path == *path {
            return Some(i);
        }
        i = i + 1;
    }
    None
}

/// Accumulate the per-file counters of a diff: one entry per file touched,
/// in order of first appearance, counting added, removed and unchanged
/// lines; events without a resolvable file path are skipped, and so are
/// origins other than `'+'`, `'-'` and `' '`.
pub fn accumulate_changes(events: &Vec<DiffLineEvent>) -> (r: Vec<FileChangeCount>)
    ensures
        r@.map_values(|c: FileChangeCount| c@) == summary_spec(events@),
{
    let mut result: Vec<FileChangeCount> = Vec::new();
    let n = events.len();
    let mut i: usize = 0;
    while i < n
        invariant
            i <= n,
            n == events@.len(),
            result@.map_values(|c: FileChangeCount| c.path@) =~= distinct_paths(
                events@.take(i as int),
            ),
            forall|j: int|
                0 <= j < result@.len() ==> #[trigger] result@[j]@ == summary_of(
                    events@.take(i as int),
                    result@[j].path@,
                ),
            forall|j: int, k: int|
                0 <= j < k < result@.len() ==> result@[j].path@ != result@[k].path@,
        decreases n - i,
    {
        let ghost pre = events@.take(i as int);
        let ghost post = events@.take(i as int + 1);
        proof {
            assert(post.drop_last() =~= pre);
            assert(post.last() == events@[i as int]);
        }
        match &events[i].path {
            None => {
                assert(distinct_paths(post) =~= distinct_paths(pre));
                assert(forall|j: int|
                    0 <= j < result@.len() ==> #[trigger] result@[j]@ == summary_of(
                        post,
                        result@[j].path@,
                    ));
            },
            Some(p) => {
                let j: usize = match find_file(&result, p) {
                    Some(j) => {
                        proof {
                            assert(result@.map_values(|c: FileChangeCount| c.path@)[j as int]
                                == p@);
                            assert(distinct_paths(pre).contains(p@));
                            assert(distinct_paths(post) =~= distinct_paths(pre));
                        }
                        j
                    },
                    None => {
                        proof {
                            if distinct_paths(pre).contains(p@) {
                                let k = choose|k: int|
                                    0 <= k < distinct_paths(pre).len() && distinct_paths(pre)[k]
                                        == p@;
                                assert(result@[k].path@ == p@);
                            }
                            assert(!distinct_paths(pre).contains(p@));
                            assert(distinct_paths(post) =~= distinct_paths(pre).push(p@));
                            lemma_distinct_paths_complete(pre, p@);
                            lemma_count_zero_when_absent(pre, p@, '+');
                            lemma_count_zero_when_absent(pre, p@, '-');
                            lemma_count_zero_when_absent(pre, p@, ' ');
                        }
                        let entry = FileChangeCount {
                            path: p.clone(),
                            added: 0,
                            removed: 0,
                            unchanged: 0,
                        };
                        result.push(entry);
                        result.len() - 1
                    },
                };
                // At this point the entry at `j` carries the event's path,
                // its counters match the events seen so far, and the listed
                // paths match the distinct paths up to and including this
                // event.
                proof {
                    assert(result@[j as int].path@ == p@);
                    assert(result@.map_values(|c: FileChangeCount| c.path@) =~= distinct_paths(
                        post,
                    ));
                    assert(forall|k: int|
                        0 <= k < result@.len() ==> #[trigger] result@[k]@ == summary_of(
                            pre,
                            result@[k].path@,
                        ));
                    lemma_count_le_len(pre, p@, '+');
                    lemma_count_le_len(pre, p@, '-');
                    lemma_count_le_len(pre, p@, ' ');
                    assert(result@[j as int]@ == summary_of(pre, result@[j as int].path@));
                    assert(result@[j as int].added as nat == count_matching(pre, p@, '+'));
                    assert(result@[j as int].removed as nat == count_matching(pre, p@, '-'));
                    assert(result@[j as int].unchanged as nat == count_matching(pre, p@, ' '));
                    assert(pre.len() == i as int);
                    assert(result@[j as int].added < n);
                    assert(result@[j as int].removed < n);
                    assert(result@[j as int].unchanged < n);
                }
                let ghost mid = result@;
                let origin = events[i].origin;
                if origin == '+' {
                    result[j].added = result[j].added + 1;
                } else if origin == '-' {
                    result[j].removed = result[j].removed + 1;
                } else if origin == ' ' {
                    result[j].unchanged = result[j].unchanged + 1;
                }
                proof {
                    assert(forall|k: int|
                        0 <= k < result@.len() && k != j ==> result@[k] == mid[k]);
                    assert(result@[j as int].path@ == p@);
                    assert(result@.map_values(|c: FileChangeCount| c.path@)
                        =~= mid.map_values(|c: FileChangeCount| c.path@));
                    assert(forall|k: int|
                        0 <= k < result@.len() ==> #[trigger] result@[k]@ == summary_of(
                            post,
                            result@[k].path@,
                        ));
                }
            },
        }
        i = i + 1;
    }
    proof {
        assert(events@.take(n as int) =~= events@);
        assert(result@.map_values(|c: FileChangeCount| c@) =~= summary_spec(events@));
    }
    result
}

/// The decimal digit character standing for `d`.
pub open spec fn dec_digit(d: nat) -> char {
    if d == 0 {
        '0'
    } else if d == 1 {
        '1'
    } else if d == 2 {
        '2'
    } else if d == 3 {
        '3'
    } else if d == 4 {
        '4'
    } else if d == 5 {
        '5'
    } else if d == 6 {
        '6'
    } else if d == 7 {
        '7'
    } else if d == 8 {
        '8'
    } else {
        '9'
    }
}

/// The decimal representation of `n`, most significant digit first, without
/// leading zeros (a single `'0'` for zero).
pub open spec fn dec_rep(n: nat) -> Seq<char>
    decreases n,
{
    if n < 10 {
        seq![dec_digit(n)]
    } else {
        dec_rep(n / 10).push(dec_digit(n % 10))
    }
}

/// The one-character string for a decimal digit.
fn digit_str(d: usize) -> (r: &'static str)
    requires
        d < 10,
    ensures
        r@ == seq![dec_digit(d as nat)],
{
    let r: &'static str = if d == 0 {
        "0"
    } else if d == 1 {
        "1"
    } else if d == 2 {
        "2"
    } else if d == 3 {
        "3"
    } else if d == 4 {
        "4"
    } else if d == 5 {
        "5"
    } else if d == 6 {
        "6"
    } else if d == 7 {
        "7"
    } else if d == 8 {
        "8"
    } else {
        "9"
    };
    proof {
        reveal_strlit("0");
        reveal_strlit("1");
        reveal_strlit("2");
        reveal_strlit("3");
        reveal_strlit("4");
        reveal_strlit("5");
        reveal_strlit("6");
        reveal_strlit("7");
        reveal_strlit("8");
        reveal_strlit("9");
        assert(r@ =~= seq![dec_digit(d as nat)]);
    }
    r
}

/// Render a counter in decimal.
fn usize_to_string(n: usize) -> (r: String)
    ensures
        r@ == dec_rep(n as nat),
    decreases n,
{
    if n < 10 {
        digit_str(n).to_owned()
    } else {
        let mut s = usize_to_string(n / 10);
        s.append(digit_str(n % 10));
        proof {
            assert(s@ =~= dec_rep(n as nat));
        }
        s
    }
}

/// The rendered change-log line of one file:
/// `"<path> +<added> -<removed> ~<unchanged>"`.
pub open spec fn line_spec(s: FileSummary) -> Seq<char> {
    s.path + " +"@ + dec_rep(s.added) + " -"@ + dec_rep(s.removed) + " ~"@ + dec_rep(s.unchanged)
}

/// The change-log body: the lines of the summaries joined by single
/// newlines, empty when no file was touched.
pub open spec fn change_log_body(summaries: Seq<FileSummary>) -> Seq<char>
    decreases summaries.len(),
{
    if summaries.len() == 0 {
        Seq::empty()
    } else if summaries.len() == 1 {
        line_spec(summaries[0])
    } else {
        change_log_body(summaries.drop_last()) + "\n"@ + line_spec(summaries.last())
    }
}

/// Render one file's counters as its change-log line.
pub fn render_change_line(c: &FileChangeCount) -> (r: String)
    ensures
        r@ == line_spec(c@),
{
    let mut s = c.path.clone();
    s.append(" +");
    let added = usize_to_string(c.added);
    s.append(added.as_str());
    s.append(" -");
    let removed = usize_to_string(c.removed);
    s.append(removed.as_str());
    s.append(" ~");
    let unchanged = usize_to_string(c.unchanged);
    s.append(unchanged.as_str());
    proof {
        assert(s@ =~= line_spec(c@));
    }
    s
}

/// Render the change-log body of accumulated counters: one line per file,
/// joined with newlines.
pub fn render_change_log(counts: &Vec<FileChangeCount>) -> (r: String)
    ensures
        r@ == change_log_body(counts@.map_values(|c: FileChangeCount| c@)),
{
    let mut s = String::new();
    let n = counts.len();
    let mut i: usize = 0;
    while i < n
        invariant
            i <= n,
            n == counts@.len(),
            s@ == change_log_body(counts@.take(i as int).map_values(|c: FileChangeCount| c@)),
        decreases n - i,
    {
        let ghost pre = counts@.take(i as int).map_values(|c: FileChangeCount| c@);
        let ghost post = counts@.take(i as int + 1).map_values(|c: FileChangeCount| c@);
        if i > 0 {
            s.append("\n");
        }
        let line = render_change_line(&counts[i]);
        s.append(line.as_str());
        proof {
            assert(post.drop_last() =~= pre);
            assert(post.last() == counts@[i as int]@);
            assert(s@ =~= change_log_body(post));
        }
        i = i + 1;
    }
    proof {
        assert(counts@.take(n as int) =~= counts@);
        assert(counts@.take(n as int).map_values(|c: FileChangeCount| c@) =~= counts@.map_values(
            |c: FileChangeCount| c@,
        ));
    }
    s
}

/// Aggregate a diff's line events and render the change-log body.
pub fn get_change_logs(events: &Vec<DiffLineEvent>) -> (r: String)
    ensures
        r@ == change_log_body(summary_spec(events@)),
{
    let counts = accumulate_changes(events);
    render_change_log(&counts)
}

} // verus!
