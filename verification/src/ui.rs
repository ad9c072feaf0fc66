//! What the pages of the application show and decide: row titles, progress
//! and result messages, the folder browser's entries, new folder paths and
//! the steps of the login flow. Drawing them is left to the caller.

use vstd::prelude::*;
use crate::db::Target;
use crate::listing::string_views;
use crate::plan::{chars_lt, lemma_lt_asymmetric, lemma_lt_irreflexive, lemma_lt_total, lemma_lt_transitive, less_than, path_parent, std_path_parent};
use crate::propfind::{item_views, RemoteItemView};
use crate::pull::{PullPlan, PullSummary};
use crate::push::{PushPlan, PushSummary};
use crate::text::{chars_eq, decimal, from_chars, push_all, push_decimal, str_is, to_chars, trim_end_char, trim_end_chars, trim_whitespace, trim_ws};
use crate::webdav::{child_path, child_path_of, concat_str, RemoteItem};

verus! {

// ------------------------------------------------------------ std paths

/// What `std::path::Path::file_name` gives for the path `p`.
pub uninterp spec fn std_file_name(p: Seq<char>) -> Option<Seq<char>>;

/// `Path::new(p).file_name()`, converted back to a string (the path came
/// from a string, so the conversion is exact). What `file_name` computes is
/// left to the name `std_file_name`.
#[verifier::external_body]
fn file_name(p: &str) -> (r: Option<String>)
    ensures
        std_file_name(p@) == match r {
            Some(s) => Some(s@),
            None => None::<Seq<char>>,
        },
{
    std::path::Path::new(p).file_name().map(|n| n.to_string_lossy().to_string())
}

/// What `str::to_lowercase` gives for `s` (Unicode lower case mapping).
pub uninterp spec fn std_lowercase(s: Seq<char>) -> Seq<char>;

/// `s.to_lowercase()`; the mapping is left to the name `std_lowercase`.
#[verifier::external_body]
fn lowercase(s: &str) -> (r: String)
    ensures
        r@ == std_lowercase(s@),
{
    s.to_lowercase()
}

/// The last component of `p`, or `p` itself when it has none.
pub open spec fn display_name_of(p: Seq<char>) -> Seq<char> {
    match std_file_name(p) {
        Some(n) => n,
        None => p,
    }
}

/// The last component of a path, or the path itself when it has none.
pub fn display_name(p: &str) -> (r: String)
    ensures
        r@ == display_name_of(p@),
{
    let n = file_name(p);
    name_or_path(n, p)
}

/// `name` when there is one, else the path `p`.
pub fn name_or_path(name: Option<String>, p: &str) -> (r: String)
    ensures
        match name {
            Some(n) => r@ == n@,
            None => r@ == p@,
        },
{
    match name {
        Some(n) => n,
        None => String::from_str(p),
    }
}

// ------------------------------------------------------------ target rows

/// The title of a target's row: the name of its local folder.
pub fn target_title(target: &Target) -> (r: String)
    ensures
        r@ == display_name_of(target.local_path@),
{
    display_name(target.local_path.as_str())
}

/// The subtitle of a target's row: "{local} → {remote}".
pub fn target_subtitle(target: &Target) -> (r: String)
    ensures
        r@ == target.local_path@ + " → "@ + target.remote_path@,
{
    let a = concat_str(target.local_path.as_str(), " → ");
    concat_str(a.as_str(), target.remote_path.as_str())
}

/// The mode label of a target's row.
pub fn mode_label(target: &Target) -> (r: String)
    ensures
        target.mode@ == "mirror"@ ==> r@ == "Mirror"@,
        target.mode@ != "mirror"@ ==> r@ == "Upload"@,
{
    if target.is_mirror() {
        String::from_str("Mirror")
    } else {
        String::from_str("Upload")
    }
}

/// "{verb} {done + 1}/{total}:  {name}": the progress shown while a file
/// goes up or down.
pub open spec fn progress_text_of(verb: Seq<char>, files_done: u32, files_total: u32, current_file: Seq<char>) -> Seq<char> {
    verb + " "@ + decimal(files_done as nat + 1) + "/"@ + decimal(files_total as nat) + ":  "@
        + display_name_of(current_file)
}

/// The progress text while a file goes up ("Pushing") or down ("Pulling").
pub fn progress_text(pushing: bool, files_done: u32, files_total: u32, current_file: &str) -> (r: String)
    requires
        files_done < u32::MAX,
    ensures
        pushing ==> r@ == progress_text_of("Pushing"@, files_done, files_total, current_file@),
        !pushing ==> r@ == progress_text_of("Pulling"@, files_done, files_total, current_file@),
{
    let mut v = if pushing { to_chars("Pushing ") } else { to_chars("Pulling ") };
    push_decimal(&mut v, (files_done + 1) as u64);
    let slash = to_chars("/");
    push_all(&mut v, slash.as_slice());
    push_decimal(&mut v, files_total as u64);
    let sep = to_chars(":  ");
    push_all(&mut v, sep.as_slice());
    let name = display_name(current_file);
    let nc = to_chars(name.as_str());
    push_all(&mut v, nc.as_slice());
    proof {
        reveal_strlit("Pushing ");
        reveal_strlit("Pushing");
        reveal_strlit("Pulling ");
        reveal_strlit("Pulling");
        reveal_strlit(" ");
        assert("Pushing "@ =~= "Pushing"@ + " "@);
        assert("Pulling "@ =~= "Pulling"@ + " "@);
    }
    from_chars(v.as_slice())
}

/// The message shown when a push is over.
pub fn push_result_message(summary: &PushSummary) -> (r: String)
    ensures
        summary.errors@.len() == 0 ==> r@ == "Done: "@ + decimal(summary.uploaded as nat) + " uploaded, "@
            + decimal(summary.skipped as nat) + " skipped"@,
        summary.errors@.len() > 0 ==> r@ == "Completed with "@ + decimal(summary.errors@.len()) + " error(s)"@,
{
    if summary.errors.len() == 0 {
        let mut v = to_chars("Done: ");
        push_decimal(&mut v, summary.uploaded as u64);
        push_all(&mut v, to_chars(" uploaded, ").as_slice());
        push_decimal(&mut v, summary.skipped as u64);
        push_all(&mut v, to_chars(" skipped").as_slice());
        from_chars(v.as_slice())
    } else {
        let mut v = to_chars("Completed with ");
        push_decimal(&mut v, summary.errors.len() as u64);
        push_all(&mut v, to_chars(" error(s)").as_slice());
        from_chars(v.as_slice())
    }
}

/// The message shown when a pull is over.
pub fn pull_result_message(summary: &PullSummary) -> (r: String)
    ensures
        summary.cancelled ==> r@ == "Pull cancelled ("@ + decimal(summary.downloaded as nat) + " downloaded)"@,
        !summary.cancelled && summary.errors@.len() == 0 ==> r@ == "Done: "@ + decimal(summary.downloaded as nat)
            + " downloaded, "@ + decimal(summary.skipped as nat) + " skipped"@,
        !summary.cancelled && summary.errors@.len() > 0 ==> r@ == "Pull completed with "@ + decimal(
            summary.errors@.len(),
        ) + " error(s)"@,
{
    if summary.cancelled {
        let mut v = to_chars("Pull cancelled (");
        push_decimal(&mut v, summary.downloaded as u64);
        push_all(&mut v, to_chars(" downloaded)").as_slice());
        from_chars(v.as_slice())
    } else if summary.errors.len() == 0 {
        let mut v = to_chars("Done: ");
        push_decimal(&mut v, summary.downloaded as u64);
        push_all(&mut v, to_chars(" downloaded, ").as_slice());
        push_decimal(&mut v, summary.skipped as u64);
        push_all(&mut v, to_chars(" skipped").as_slice());
        from_chars(v.as_slice())
    } else {
        let mut v = to_chars("Pull completed with ");
        push_decimal(&mut v, summary.errors.len() as u64);
        push_all(&mut v, to_chars(" error(s)").as_slice());
        from_chars(v.as_slice())
    }
}

// ------------------------------------------------------- running all targets

/// What running every target in turn does next.
#[derive(Debug, Clone, Copy, PartialEq, Eq, Structural)]
pub enum SequenceStep {
    /// Run the target at this position.
    Run(usize),
    /// Stop; `cancelled` tells whether the user cancelled.
    Stop { cancelled: bool },
}

/// Running every target in turn: stop when cancelled or past the last
/// target, else run the target at `index`.
pub fn sequence_step(cancelled: bool, index: usize, count: usize) -> (r: SequenceStep)
    ensures
        (cancelled || index >= count) ==> r == (SequenceStep::Stop { cancelled }),
        !(cancelled || index >= count) ==> r == SequenceStep::Run(index),
{
    if cancelled || index >= count {
        SequenceStep::Stop { cancelled }
    } else {
        SequenceStep::Run(index)
    }
}

// ------------------------------------------------------------ folder browser

/// Whether the browser shows a ".." row: anywhere but the root.
pub fn shows_parent_row(current_path: &str) -> (r: bool)
    ensures
        r == !(current_path@ == "/"@ || current_path@.len() == 0),
{
    let c = to_chars(current_path);
    !(str_is(current_path, "/") || c.len() == 0)
}

/// The folder above `p` in the browser: its parent, the root when that is
/// empty or missing.
pub open spec fn parent_folder_of(p: Seq<char>) -> Seq<char> {
    match std_path_parent(p) {
        Some(q) => if q.len() == 0 {
            "/"@
        } else {
            q
        },
        None => "/"@,
    }
}

/// The folder above `p` in the browser.
pub fn parent_folder(p: &str) -> (r: String)
    ensures
        r@ == parent_folder_of(p@),
{
    let parent = path_parent(p);
    parent_or_root(parent)
}

/// A parent directory, or the root when it is empty or missing.
pub fn parent_or_root(parent: Option<String>) -> (r: String)
    ensures
        match parent {
            Some(q) => if q@.len() == 0 {
                r@ == "/"@
            } else {
                r@ == q@
            },
            None => r@ == "/"@,
        },
{
    match parent {
        Some(q) => {
            if to_chars(q.as_str()).len() == 0 {
                String::from_str("/")
            } else {
                q
            }
        },
        None => String::from_str("/"),
    }
}

/// The path of a new folder called `input` (trimmed) in `current`; nothing
/// for an empty name.
pub fn new_folder_path(current: &str, input: &str) -> (r: Option<String>)
    ensures
        trim_ws(input@).len() == 0 ==> r is None,
        trim_ws(input@).len() > 0 ==> (r matches Some(p) && p@ == child_path_of(current@, trim_ws(input@))),
{
    let name = trim_whitespace(input);
    if to_chars(name.as_str()).len() == 0 {
        None
    } else {
        Some(child_path(current, name.as_str()))
    }
}

/// Order by key, then by position: the order of a stable sort.
pub open spec fn key_before(keys: Seq<Seq<char>>, a: int, b: int) -> bool {
    chars_lt(keys[a], keys[b]) || (keys[a] == keys[b] && a < b)
}

/// The positions of the directories among `items`, in order.
pub open spec fn dir_positions(items: Seq<RemoteItemView>, k: int) -> Seq<int>
    decreases k,
{
    if k <= 0 {
        seq![]
    } else if items[k - 1].is_dir {
        dir_positions(items, k - 1).push(k - 1)
    } else {
        dir_positions(items, k - 1)
    }
}

/// `r` is the directories of `items` sorted by `keys` (one per item), equal
/// keys keeping their order: `r[k]` is `items[order[k]]`, `order` runs over
/// the directories, each once, in increasing (key, position) order.
pub open spec fn sorted_folders_by(
    items: Seq<RemoteItemView>,
    keys: Seq<Seq<char>>,
    r: Seq<RemoteItemView>,
    order: Seq<int>,
) -> bool {
    &&& order.len() == r.len()
    &&& order.len() == dir_positions(items, items.len() as int).len()
    &&& forall|k: int| 0 <= k < order.len() ==> dir_positions(items, items.len() as int).contains(#[trigger] order[k])
    &&& forall|k: int| 0 <= k < order.len() ==> r[k] == items[#[trigger] order[k]]
    &&& forall|a: int, b: int| 0 <= a < b < order.len() ==> key_before(keys, #[trigger] order[a], #[trigger] order[b])
}

/// The lower-case names of `items`.
pub open spec fn lower_keys(items: Seq<RemoteItemView>) -> Seq<Seq<char>> {
    items.map_values(|it: RemoteItemView| std_lowercase(it.name))
}

/// `r` is the directories of `items` sorted by lower-case name, equal names
/// keeping their order.
pub open spec fn sorted_folders(items: Seq<RemoteItemView>, r: Seq<RemoteItemView>, order: Seq<int>) -> bool {
    sorted_folders_by(items, lower_keys(items), r, order)
}

proof fn lemma_dir_positions(items: Seq<RemoteItemView>, k: int)
    requires
        0 <= k <= items.len(),
    ensures
        forall|j: int| 0 <= j < dir_positions(items, k).len() ==> 0 <= #[trigger] dir_positions(items, k)[j] < k
            && items[dir_positions(items, k)[j]].is_dir,
        forall|a: int, b: int| 0 <= a < b < dir_positions(items, k).len() ==> #[trigger] dir_positions(items, k)[a] < #[trigger] dir_positions(items, k)[b],
        forall|i: int| 0 <= i < k && items[i].is_dir ==> dir_positions(items, k).contains(i),
    decreases k,
{
    if k > 0 {
        lemma_dir_positions(items, k - 1);
        let d = dir_positions(items, k - 1);
        if items[k - 1].is_dir {
            assert(dir_positions(items, k) == d.push(k - 1));
            assert forall|i: int| 0 <= i < k && items[i].is_dir implies dir_positions(items, k).contains(i) by {
                if i < k - 1 {
                    assert(d.contains(i));
                    let j = choose|j: int| 0 <= j < d.len() && d[j] == i;
                    assert(dir_positions(items, k)[j] == i);
                } else {
                    assert(dir_positions(items, k)[d.len() as int] == i);
                }
            }
        } else {
            assert(dir_positions(items, k) == d);
            assert forall|i: int| 0 <= i < k && items[i].is_dir implies dir_positions(items, k).contains(i) by {
                assert(i < k - 1);
                assert(d.contains(i));
            }
        }
    }
}

/// The directories among `items`, sorted by `keys_in` (one key per item);
/// directories whose keys are equal keep their order.
pub fn sort_folders(items: &Vec<RemoteItem>, keys_in: &Vec<String>) -> (r: Vec<RemoteItem>)
    requires
        keys_in@.len() == items@.len(),
    ensures
        exists|order: Seq<int>| sorted_folders_by(item_views(items@), string_views(keys_in@), item_views(r@), order),
{
    let ghost iv = item_views(items@);
    let ghost keys = string_views(keys_in@);
    let mut key_vals: Vec<Vec<char>> = Vec::new();
    let mut i: usize = 0;
    while i < keys_in.len()
        invariant
            keys == string_views(keys_in@),
            keys_in@.len() == items@.len(),
            i <= keys_in@.len(),
            key_vals@.len() == i,
            forall|j: int| 0 <= j < i ==> (#[trigger] key_vals@[j])@ == keys[j],
        decreases keys_in@.len() - i,
    {
        key_vals.push(to_chars(keys_in[i].as_str()));
        i = i + 1;
    }
    let mut order: Vec<usize> = Vec::new();
    let mut k: usize = 0;
    while k < items.len()
        invariant
            iv == item_views(items@),
            keys == string_views(keys_in@),
            key_vals@.len() == items@.len(),
            forall|j: int| 0 <= j < items@.len() ==> (#[trigger] key_vals@[j])@ == keys[j],
            k <= items@.len(),
            order@.len() == dir_positions(iv, k as int).len(),
            forall|j: int| 0 <= j < order@.len() ==> dir_positions(iv, k as int).contains(#[trigger] order@[j] as int),
            forall|j: int| 0 <= j < order@.len() ==> #[trigger] order@[j] < k,
            forall|a: int, b: int| 0 <= a < b < order@.len() ==> key_before(keys, #[trigger] order@[a] as int, #[trigger] order@[b] as int),
        decreases items@.len() - k,
    {
        proof {
            lemma_dir_positions(iv, k as int);
            lemma_dir_positions(iv, k + 1);
        }
        if items[k].is_dir {
            let mut p: usize = order.len();
            while p > 0 && less_than(key_vals[k].as_slice(), key_vals[order[p - 1]].as_slice())
                invariant
                    p <= order@.len(),
                    key_vals@.len() == items@.len(),
                    forall|j: int| 0 <= j < items@.len() ==> (#[trigger] key_vals@[j])@ == keys[j],
                    forall|j: int| 0 <= j < order@.len() ==> #[trigger] order@[j] < k,
                    k < items@.len(),
                    forall|j: int| p <= j < order@.len() ==> chars_lt(keys[k as int], keys[#[trigger] order@[j] as int]),
                decreases p,
            {
                p = p - 1;
            }
            let ghost o0 = order@;
            order.insert(p, k);
            proof {
                assert(order@ =~= o0.insert(p as int, k));
                let d0 = dir_positions(iv, k as int);
                let d1 = dir_positions(iv, k + 1);
                assert(d1 == d0.push(k as int));
                assert forall|j: int| 0 <= j < order@.len() implies d1.contains(#[trigger] order@[j] as int) by {
                    if j < p {
                        assert(order@[j] == o0[j]);
                        assert(d0.contains(o0[j] as int));
                        let m = choose|m: int| 0 <= m < d0.len() && d0[m] == o0[j] as int;
                        assert(d1[m] == o0[j] as int);
                    } else if j == p {
                        assert(d1[d0.len() as int] == k);
                    } else {
                        assert(order@[j] == o0[j - 1]);
                        assert(d0.contains(o0[j - 1] as int));
                        let m = choose|m: int| 0 <= m < d0.len() && d0[m] == o0[j - 1] as int;
                        assert(d1[m] == o0[j - 1] as int);
                    }
                }
                assert forall|a: int, b: int| 0 <= a < b < order@.len() implies key_before(keys, #[trigger] order@[a] as int, #[trigger] order@[b] as int) by {
                    let ka = order@[a] as int;
                    let kb = order@[b] as int;
                    if b < p {
                        assert(ka == o0[a] && kb == o0[b]);
                    } else if b == p {
                        assert(ka == o0[a]);
                        assert(kb == k);
                        if p > 0 {
                            let q = o0[p - 1] as int;
                            assert(!chars_lt(keys[k as int], keys[q]));
                            lemma_lt_total(keys[k as int], keys[q]);
                            if a < p - 1 {
                                assert(key_before(keys, ka, q));
                                if chars_lt(keys[ka], keys[q]) {
                                    if chars_lt(keys[q], keys[k as int]) {
                                        lemma_lt_transitive(keys[ka], keys[q], keys[k as int]);
                                    }
                                } else {
                                }
                            }
                        }
                    } else if a < p {
                        assert(ka == o0[a]);
                        assert(kb == o0[b - 1]);
                        if a < b - 1 {
                            assert(key_before(keys, o0[a] as int, o0[b - 1] as int));
                        }
                    } else if a == p {
                        assert(ka == k);
                        assert(kb == o0[b - 1]);
                        assert(chars_lt(keys[k as int], keys[kb]));
                    } else {
                        assert(ka == o0[a - 1]);
                        assert(kb == o0[b - 1]);
                    }
                }
            }
        } else {
            proof {
                assert(dir_positions(iv, k + 1) == dir_positions(iv, k as int));
            }
        }
        k = k + 1;
    }
    let mut out: Vec<RemoteItem> = Vec::new();
    let mut m: usize = 0;
    while m < order.len()
        invariant
            iv == item_views(items@),
            m <= order@.len(),
            out@.len() == m,
            forall|j: int| 0 <= j < order@.len() ==> #[trigger] order@[j] < items@.len(),
            forall|j: int| 0 <= j < m ==> item_views(out@)[j] == iv[#[trigger] order@[j] as int],
        decreases order@.len() - m,
    {
        let it = &items[order[m]];
        out.push(RemoteItem { name: it.name.clone(), is_dir: it.is_dir, size: it.size });
        m = m + 1;
    }
    proof {
        let ord = order@.map_values(|x: usize| x as int);
        assert(sorted_folders_by(iv, keys, item_views(out@), ord));
    }
    out
}

/// The browser's entries: the directories among `items`, sorted by
/// lower-case name; directories whose names compare equal keep their order.
pub fn folder_entries(items: &Vec<RemoteItem>) -> (r: Vec<RemoteItem>)
    ensures
        exists|order: Seq<int>| sorted_folders(item_views(items@), item_views(r@), order),
{
    let ghost iv = item_views(items@);
    let mut keys: Vec<String> = Vec::new();
    let mut i: usize = 0;
    while i < items.len()
        invariant
            iv == item_views(items@),
            i <= items@.len(),
            keys@.len() == i,
            forall|j: int| 0 <= j < i ==> (#[trigger] keys@[j])@ == lower_keys(iv)[j],
        decreases items@.len() - i,
    {
        keys.push(lowercase(items[i].name.as_str()));
        i = i + 1;
    }
    proof {
        assert(string_views(keys@) =~= lower_keys(iv));
    }
    let r = sort_folders(items, &keys);
    proof {
        let order = choose|order: Seq<int>| sorted_folders_by(iv, string_views(keys@), item_views(r@), order);
        assert(sorted_folders(iv, item_views(r@), order));
    }
    r
}

// ------------------------------------------------------------ account page

/// The server URL typed in, trimmed, without trailing `/`; nothing when it
/// is empty (the page then asks for one).
pub fn normalize_server_url(input: &str) -> (r: Option<String>)
    ensures
        trim_ws(input@).len() == 0 ==> r is None,
        trim_ws(input@).len() > 0 ==> (r matches Some(s) && s@ == trim_end_char(trim_ws(input@), '/')),
{
    let t = trim_whitespace(input);
    let tc = to_chars(t.as_str());
    if tc.len() == 0 {
        None
    } else {
        let u = trim_end_chars(tc.as_slice(), '/');
        Some(from_chars(u.as_slice()))
    }
}

/// Where Login Flow v2 starts: "{server}/index.php/login/v2".
pub fn login_init_url(server: &str) -> (r: String)
    ensures
        r@ == server@ + "/index.php/login/v2"@,
{
    concat_str(server, "/index.php/login/v2")
}

/// How many times the login flow polls (every two seconds, five minutes).
pub const LOGIN_POLL_ATTEMPTS: u32 = 150;

/// What to do with one answer of the login poll endpoint.
#[derive(Debug, Clone, Copy, PartialEq, Eq, Structural)]
pub enum PollDecision {
    /// Wait and poll again.
    Retry,
    /// The user logged in: read the credentials from the answer.
    ReadCredentials,
    /// No answer with credentials in time: give up.
    TimedOut,
}

/// Whether a status is a success (2xx).
pub open spec fn is_success(status: u16) -> bool {
    200 <= status <= 299
}

/// The login poll after `attempts` polls, given the status of the last
/// answer (none when the request failed): a success means the user logged
/// in; anything else means try again, until the attempts are used up.
pub fn poll_decision(attempts: u32, status: Option<u16>) -> (r: PollDecision)
    requires
        1 <= attempts <= LOGIN_POLL_ATTEMPTS,
    ensures
        (status matches Some(s) && is_success(s)) ==> r == PollDecision::ReadCredentials,
        !(status matches Some(s) && is_success(s)) && attempts < LOGIN_POLL_ATTEMPTS ==> r == PollDecision::Retry,
        !(status matches Some(s) && is_success(s)) && attempts == LOGIN_POLL_ATTEMPTS ==> r == PollDecision::TimedOut,
{
    match status {
        Some(s) if 200 <= s && s <= 299 => PollDecision::ReadCredentials,
        _ => if attempts < LOGIN_POLL_ATTEMPTS {
            PollDecision::Retry
        } else {
            PollDecision::TimedOut
        },
    }
}

/// What went wrong in the login flow.
#[derive(Debug, Clone, Copy, PartialEq, Eq, Structural)]
pub enum LoginFailure {
    /// The HTTP client could not be built.
    ClientSetup,
    /// The server could not be reached.
    Unreachable,
    /// The server answered the start of the flow with an error status.
    NotNextcloud,
    /// The start of the flow answered something unreadable.
    InvalidInit,
    /// The credentials answer was unreadable.
    InvalidCredentials,
    /// The user did not log in in time.
    TimedOut,
}

/// The message shown for a login failure with the given detail.
pub fn login_error_text(kind: LoginFailure, detail: &str) -> (r: String)
    ensures
        kind == LoginFailure::ClientSetup ==> r@ == "HTTP client error: "@ + detail@,
        kind == LoginFailure::Unreachable ==> r@ == "Could not reach server: "@ + detail@,
        kind == LoginFailure::NotNextcloud ==> r@ == "Server returned "@ + detail@ + ". Is this a Nextcloud server?"@,
        kind == LoginFailure::InvalidInit ==> r@ == "Invalid server response: "@ + detail@,
        kind == LoginFailure::InvalidCredentials ==> r@ == "Invalid credentials response: "@ + detail@,
        kind == LoginFailure::TimedOut ==> r@ == "Login timed out. Please try again."@,
{
    match kind {
        LoginFailure::ClientSetup => concat_str("HTTP client error: ", detail),
        LoginFailure::Unreachable => concat_str("Could not reach server: ", detail),
        LoginFailure::NotNextcloud => {
            let a = concat_str("Server returned ", detail);
            concat_str(a.as_str(), ". Is this a Nextcloud server?")
        },
        LoginFailure::InvalidInit => concat_str("Invalid server response: ", detail),
        LoginFailure::InvalidCredentials => concat_str("Invalid credentials response: ", detail),
        LoginFailure::TimedOut => String::from_str("Login timed out. Please try again."),
    }
}

/// The text shown after testing the connection.
pub fn connection_test_text(result: &Result<(), String>) -> (r: String)
    ensures
        result is Ok ==> r@ == "Connection successful!"@,
        result matches Err(e) ==> r@ == "Failed: "@ + e@,
{
    match result {
        Ok(()) => String::from_str("Connection successful!"),
        Err(e) => concat_str("Failed: ", e.as_str()),
    }
}


// ------------------------------------------------------------ push and pull plans

/// The note added when a mirror target is among those pushed.
pub open spec fn mirror_note() -> Seq<char> {
    "\n\nMirror mode: remote files not in local will be deleted"@
}

/// " across N target(s)" when several targets are planned together.
pub open spec fn across_of(targets: Option<usize>) -> Seq<char> {
    match targets {
        Some(n) => " across "@ + decimal(n as nat) + " target(s)"@,
        None => seq![],
    }
}

/// Before a push: with nothing to upload, the message that there is
/// nothing to do; otherwise the question's body.
pub open spec fn push_prompt_of(to_upload: u32, to_skip: u32, targets: Option<usize>, mirror: bool) -> Result<Seq<char>, Seq<char>> {
    if to_upload == 0 {
        Err("Nothing to push — all files up to date"@)
    } else {
        Ok(decimal(to_upload as nat) + " file(s) to upload, "@ + decimal(to_skip as nat) + " to skip"@ + across_of(targets)
            + if mirror {
            mirror_note()
        } else {
            seq![]
        })
    }
}

/// Before a pull: with nothing to download, the message that there is
/// nothing to do; otherwise the question's body.
pub open spec fn pull_prompt_of(to_download: u32, to_skip: u32, targets: Option<usize>) -> Result<Seq<char>, Seq<char>> {
    if to_download == 0 {
        Err("Nothing to pull — all files up to date"@)
    } else {
        Ok(decimal(to_download as nat) + " file(s) to download, "@ + decimal(to_skip as nat) + " to skip"@ + across_of(targets))
    }
}

fn push_across(v: &mut Vec<char>, targets: Option<usize>)
    ensures
        final(v)@ == old(v)@ + across_of(targets),
{
    match targets {
        Some(n) => {
            push_all(v, to_chars(" across ").as_slice());
            push_decimal(v, n as u64);
            push_all(v, to_chars(" target(s)").as_slice());
        },
        None => {
            assert(old(v)@ + across_of(targets) =~= old(v)@);
        },
    }
}

/// The text before a push of one target (`targets` is `None`) or of several
/// (`Some(count)`): `Err` with the message to show when nothing is to be
/// uploaded, else `Ok` with the question's body.
pub fn push_prompt(plan: PushPlan, targets: Option<usize>) -> (r: Result<String, String>)
    ensures
        match push_prompt_of(plan.to_upload, plan.to_skip, targets, plan.is_mirror) {
            Ok(b) => r matches Ok(x) && x@ == b,
            Err(m) => r matches Err(x) && x@ == m,
        },
{
    if plan.to_upload == 0 {
        return Err(String::from_str("Nothing to push — all files up to date"));
    }
    let mut v: Vec<char> = Vec::new();
    push_decimal(&mut v, plan.to_upload as u64);
    push_all(&mut v, to_chars(" file(s) to upload, ").as_slice());
    push_decimal(&mut v, plan.to_skip as u64);
    push_all(&mut v, to_chars(" to skip").as_slice());
    push_across(&mut v, targets);
    if plan.is_mirror {
        push_all(&mut v, to_chars("\n\nMirror mode: remote files not in local will be deleted").as_slice());
    } else {
        assert(v@ + seq![] =~= v@);
    }
    Ok(from_chars(v.as_slice()))
}

/// The text before a pull of one target or of several (see [`push_prompt`]).
pub fn pull_prompt(plan: PullPlan, targets: Option<usize>) -> (r: Result<String, String>)
    ensures
        match pull_prompt_of(plan.to_download, plan.to_skip, targets) {
            Ok(b) => r matches Ok(x) && x@ == b,
            Err(m) => r matches Err(x) && x@ == m,
        },
{
    if plan.to_download == 0 {
        return Err(String::from_str("Nothing to pull — all files up to date"));
    }
    let mut v: Vec<char> = Vec::new();
    push_decimal(&mut v, plan.to_download as u64);
    push_all(&mut v, to_chars(" file(s) to download, ").as_slice());
    push_decimal(&mut v, plan.to_skip as u64);
    push_all(&mut v, to_chars(" to skip").as_slice());
    push_across(&mut v, targets);
    Ok(from_chars(v.as_slice()))
}

/// The sum of the files to upload over `plans`.
pub open spec fn total_upload(plans: Seq<PushPlan>) -> nat
    decreases plans.len(),
{
    if plans.len() == 0 {
        0
    } else {
        total_upload(plans.drop_last()) + plans.last().to_upload as nat
    }
}

/// The sum of the files to skip over `plans`.
pub open spec fn total_push_skip(plans: Seq<PushPlan>) -> nat
    decreases plans.len(),
{
    if plans.len() == 0 {
        0
    } else {
        total_push_skip(plans.drop_last()) + plans.last().to_skip as nat
    }
}

/// Some of `plans` mirrors.
pub open spec fn any_mirror(plans: Seq<PushPlan>) -> bool {
    exists|i: int| 0 <= i < plans.len() && #[trigger] plans[i].is_mirror
}

proof fn lemma_totals_grow(plans: Seq<PushPlan>, k: int)
    requires
        0 <= k <= plans.len(),
    ensures
        total_upload(plans.take(k)) <= total_upload(plans),
        total_push_skip(plans.take(k)) <= total_push_skip(plans),
    decreases plans.len(),
{
    if k < plans.len() {
        lemma_totals_grow(plans.drop_last(), k);
        assert(plans.drop_last().take(k) =~= plans.take(k));
    } else {
        assert(plans.take(k) =~= plans);
    }
}

/// The plans of several targets added up (the mirror flag when any target
/// mirrors); `None` when a total does not fit in a `u32`.
pub fn push_plan_totals(plans: &Vec<PushPlan>) -> (r: Option<PushPlan>)
    ensures
        (total_upload(plans@) <= u32::MAX && total_push_skip(plans@) <= u32::MAX) ==> (r matches Some(t)
            && t.to_upload == total_upload(plans@) && t.to_skip == total_push_skip(plans@) && t.is_mirror
            == any_mirror(plans@)),
        !(total_upload(plans@) <= u32::MAX && total_push_skip(plans@) <= u32::MAX) ==> r is None,
{
    let mut up: u64 = 0;
    let mut skip: u64 = 0;
    let mut mirror = false;
    let mut k: usize = 0;
    while k < plans.len()
        invariant
            k <= plans@.len(),
            up == total_upload(plans@.take(k as int)),
            skip == total_push_skip(plans@.take(k as int)),
            up <= u32::MAX,
            skip <= u32::MAX,
            mirror == any_mirror(plans@.take(k as int)),
        decreases plans@.len() - k,
    {
        proof {
            let t0 = plans@.take(k as int);
            let t1 = plans@.take(k + 1);
            assert(t1.drop_last() =~= t0);
            assert(t1.last() == plans@[k as int]);
            if any_mirror(t0) {
                let i = choose|i: int| 0 <= i < t0.len() && #[trigger] t0[i].is_mirror;
                assert(t1[i] == t0[i]);
            }
            if plans@[k as int].is_mirror {
                assert(t1[k as int].is_mirror);
            }
            if any_mirror(t1) {
                let i = choose|i: int| 0 <= i < t1.len() && #[trigger] t1[i].is_mirror;
                if i < k {
                    assert(t0[i] == t1[i]);
                }
            }
        }
        up = up + plans[k].to_upload as u64;
        skip = skip + plans[k].to_skip as u64;
        mirror = mirror || plans[k].is_mirror;
        k = k + 1;
        if up > 0xffff_ffff || skip > 0xffff_ffff {
            proof {
                lemma_totals_grow(plans@, k as int);
            }
            return None;
        }
    }
    proof {
        assert(plans@.take(plans@.len() as int) =~= plans@);
    }
    Some(PushPlan { to_upload: up as u32, to_skip: skip as u32, is_mirror: mirror })
}


/// The sum of the files to download over `plans`.
pub open spec fn total_download(plans: Seq<PullPlan>) -> nat
    decreases plans.len(),
{
    if plans.len() == 0 {
        0
    } else {
        total_download(plans.drop_last()) + plans.last().to_download as nat
    }
}

/// The sum of the files to skip over `plans`.
pub open spec fn total_pull_skip(plans: Seq<PullPlan>) -> nat
    decreases plans.len(),
{
    if plans.len() == 0 {
        0
    } else {
        total_pull_skip(plans.drop_last()) + plans.last().to_skip as nat
    }
}

proof fn lemma_pull_totals_grow(plans: Seq<PullPlan>, k: int)
    requires
        0 <= k <= plans.len(),
    ensures
        total_download(plans.take(k)) <= total_download(plans),
        total_pull_skip(plans.take(k)) <= total_pull_skip(plans),
    decreases plans.len(),
{
    if k < plans.len() {
        lemma_pull_totals_grow(plans.drop_last(), k);
        assert(plans.drop_last().take(k) =~= plans.take(k));
    } else {
        assert(plans.take(k) =~= plans);
    }
}

/// The plans of several pulls added up; `None` when a total does not fit in
/// a `u32`.
pub fn pull_plan_totals(plans: &Vec<PullPlan>) -> (r: Option<PullPlan>)
    ensures
        (total_download(plans@) <= u32::MAX && total_pull_skip(plans@) <= u32::MAX) ==> (r matches Some(t)
            && t.to_download == total_download(plans@) && t.to_skip == total_pull_skip(plans@)),
        !(total_download(plans@) <= u32::MAX && total_pull_skip(plans@) <= u32::MAX) ==> r is None,
{
    let mut down: u64 = 0;
    let mut skip: u64 = 0;
    let mut k: usize = 0;
    while k < plans.len()
        invariant
            k <= plans@.len(),
            down == total_download(plans@.take(k as int)),
            skip == total_pull_skip(plans@.take(k as int)),
            down <= u32::MAX,
            skip <= u32::MAX,
        decreases plans@.len() - k,
    {
        proof {
            assert(plans@.take(k + 1).drop_last() =~= plans@.take(k as int));
            assert(plans@.take(k + 1).last() == plans@[k as int]);
        }
        down = down + plans[k].to_download as u64;
        skip = skip + plans[k].to_skip as u64;
        k = k + 1;
        if down > 0xffff_ffff || skip > 0xffff_ffff {
            proof {
                lemma_pull_totals_grow(plans@, k as int);
            }
            return None;
        }
    }
    proof {
        assert(plans@.take(plans@.len() as int) =~= plans@);
    }
    Some(PullPlan { to_download: down as u32, to_skip: skip as u32 })
}


// ------------------------------------------------------------ one run at a time

/// Whether a push or a pull is running on the targets page. Only one runs
/// at a time: a run is asked for while none is going, and begins on the
/// user's confirmation unless another one began meanwhile.
#[derive(Debug)]
pub struct RunGuard {
    busy: bool,
}

impl View for RunGuard {
    type V = bool;

    /// Whether a run is going.
    closed spec fn view(&self) -> bool {
        self.busy
    }
}

impl Default for RunGuard {
    /// No run is going.
    fn default() -> (r: Self)
        ensures
            !r@,
    {
        RunGuard { busy: false }
    }
}

/// The answer to a request in state `busy`: refused while a run is going.
pub open spec fn request_allowed(busy: bool) -> bool {
    !busy
}

/// A confirmation in state `busy`: whether the run begins, and the state
/// after it.
pub open spec fn confirm_outcome(busy: bool) -> (bool, bool) {
    (!busy, true)
}

impl RunGuard {
    /// No run is going.
    pub fn new() -> (r: Self)
        ensures
            !r@,
    {
        RunGuard { busy: false }
    }

    /// Whether a run is going.
    pub fn is_busy(&self) -> (r: bool)
        ensures
            r == self@,
    {
        self.busy
    }

    /// Asking for a push or a pull of one target: refused with
    /// "An operation is already in progress" while a run is going.
    pub fn request(&self) -> (r: Result<(), String>)
        ensures
            request_allowed(self@) ==> r is Ok,
            !request_allowed(self@) ==> (r matches Err(m) && m@ == "An operation is already in progress"@),
    {
        if self.busy {
            Err(String::from_str("An operation is already in progress"))
        } else {
            Ok(())
        }
    }

    /// The user confirmed a run: it begins unless one is already going.
    pub fn confirm(&mut self) -> (r: bool)
        ensures
            (r, final(self)@) == confirm_outcome(old(self)@),
    {
        if self.busy {
            false
        } else {
            self.busy = true;
            true
        }
    }

    /// The run is over.
    pub fn finished(&mut self)
        ensures
            !final(self)@,
    {
        self.busy = false;
    }
}

/// Only one push or pull runs at a time: once a run has begun, neither a
/// request nor another confirmation starts a second one until it is over.
pub proof fn law_one_run_at_a_time(busy: bool)
    ensures
        confirm_outcome(busy).0 ==> {
            let after = confirm_outcome(busy).1;
            &&& !request_allowed(after)
            &&& !confirm_outcome(after).0
        },
{
}

// ------------------------------------------------------------ page refusals and endings

/// Why the targets page does not start what was asked.
#[derive(Debug, Clone, Copy, PartialEq, Eq, Structural)]
pub enum Refusal {
    /// A push or pull of one target while no account is set up.
    NoAccountForTarget,
    /// Push All or Pull All while no account is set up.
    NoAccount,
    /// The target is gone from the database.
    TargetNotFound,
    /// Push All with no target.
    NoTargetsToPush,
    /// Pull All with no target.
    NoTargetsToPull,
    /// Scanning the targets for Push All or Pull All failed.
    ScanFailed,
}

/// The message shown for a refusal.
pub fn refusal_text(r: Refusal) -> (t: String)
    ensures
        r == Refusal::NoAccountForTarget ==> t@ == "No account configured. Set up an account first."@,
        r == Refusal::NoAccount ==> t@ == "No account configured"@,
        r == Refusal::TargetNotFound ==> t@ == "Target not found"@,
        r == Refusal::NoTargetsToPush ==> t@ == "No targets to push"@,
        r == Refusal::NoTargetsToPull ==> t@ == "No targets to pull"@,
        r == Refusal::ScanFailed ==> t@ == "Failed to scan targets"@,
{
    match r {
        Refusal::NoAccountForTarget => String::from_str("No account configured. Set up an account first."),
        Refusal::NoAccount => String::from_str("No account configured"),
        Refusal::TargetNotFound => String::from_str("Target not found"),
        Refusal::NoTargetsToPush => String::from_str("No targets to push"),
        Refusal::NoTargetsToPull => String::from_str("No targets to pull"),
        Refusal::ScanFailed => String::from_str("Failed to scan targets"),
    }
}

/// The message when scanning one target failed: "Scan failed: {error}".
pub fn scan_failed_text(error: &str) -> (t: String)
    ensures
        t@ == "Scan failed: "@ + error@,
{
    concat_str("Scan failed: ", error)
}

/// The message when Push All or Pull All stops.
pub fn sequence_end_text(pushing: bool, cancelled: bool) -> (t: String)
    ensures
        pushing && cancelled ==> t@ == "Push all cancelled"@,
        pushing && !cancelled ==> t@ == "All targets pushed"@,
        !pushing && cancelled ==> t@ == "Pull all cancelled"@,
        !pushing && !cancelled ==> t@ == "All targets pulled"@,
{
    if pushing {
        if cancelled {
            String::from_str("Push all cancelled")
        } else {
            String::from_str("All targets pushed")
        }
    } else if cancelled {
        String::from_str("Pull all cancelled")
    } else {
        String::from_str("All targets pulled")
    }
}

/// Whether the start of the login flow was answered with success (2xx);
/// anything else means the server is not a Nextcloud.
pub fn login_init_accepted(status: u16) -> (r: bool)
    ensures
        r == is_success(status),
{
    200 <= status && status <= 299
}


/// The mirror flag of the totals tells whether any of the plans mirrors:
/// one mirroring plan anywhere makes it true, whatever comes after it.
pub proof fn law_totals_mirror_flag(plans: Seq<PushPlan>, extra: PushPlan)
    ensures
        any_mirror(plans) <==> (exists|i: int| 0 <= i < plans.len() && #[trigger] plans[i].is_mirror),
        any_mirror(plans.push(extra)) <==> (any_mirror(plans) || extra.is_mirror),
{
    let p2 = plans.push(extra);
    if any_mirror(plans) {
        let i = choose|i: int| 0 <= i < plans.len() && #[trigger] plans[i].is_mirror;
        assert(p2[i] == plans[i]);
    }
    if extra.is_mirror {
        assert(p2[plans.len() as int].is_mirror);
    }
    if any_mirror(p2) {
        let i = choose|i: int| 0 <= i < p2.len() && #[trigger] p2[i].is_mirror;
        if i < plans.len() {
            assert(plans[i] == p2[i]);
        }
    }
}

} // verus!
