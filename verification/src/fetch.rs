//! How the temporary directory of a cache entry is filled: the steps for the
//! artifacts of a job, and the steps for a static remote tree, which its
//! list of files decides.

use crate::action::Action;
use crate::action::action_views;
use crate::action::ActionView;
use crate::layout::child;
use crate::layout::child_path;
use crate::layout::lemma_child_stays_below;
use crate::layout::lemma_descends_joined;
use crate::layout::lemma_descends_plain;
use crate::layout::stays_below;
use crate::plan::dotdot;
use crate::plan::keep_without_dotdot;
use crate::plan::not_dotdot;
use crate::plan::slash;
use crate::plan::slash_chars;
use crate::plan::without_dotdot;
use crate::text::append_str;
use crate::text::chars_of;
use crate::text::copy_chars;
use crate::text::join_between;
use crate::text::join_text;
use crate::text::lemma_split_parts_plain;
use crate::text::split;
use crate::text::split_text;
use crate::text::string_of;
use crate::text::views;
use vstd::prelude::*;

verus! {

/// The name of the file that the artifacts of a job are downloaded to.
pub open spec fn zip_name() -> Seq<char> {
    "artifacts_zip"@
}

/// The command line that unpacks `zip` into `target`.
pub open spec fn unpack_command(zip: Seq<char>, target: Seq<char>) -> Seq<char> {
    "unzip "@ + zip + " -d "@ + target
}

/// The steps that fill `tmp` with the artifacts of a job: download the
/// archive into `tmp`, unpack it there, remove it.
pub open spec fn job_script(
    tmp: Seq<char>,
    source_name: Seq<char>,
    project: Seq<char>,
    job_id: u64,
) -> Seq<ActionView> {
    let zip = child(tmp, zip_name());
    seq![
        ActionView::DownloadJob { source_name, project, job_id, to: zip },
        ActionView::Run { command: unpack_command(zip, tmp) },
        ActionView::RemoveFile { path: zip },
    ]
}

/// The name of the list of files of a remote tree.
pub open spec fn list_name() -> Seq<char> {
    "list.txt"@
}

/// Where the list of files of a remote tree is.
pub open spec fn list_url(base_url: Seq<char>, subpath: Seq<char>) -> Seq<char> {
    child(child(base_url, subpath), list_name())
}

/// One line: what stands between two line feeds, without a carriage return
/// right before the line feed that ends it.
pub open spec fn line_of(piece: Seq<char>, ended: bool) -> Seq<char> {
    if ended && piece.len() > 0 && piece.last() == '\r' {
        piece.drop_last()
    } else {
        piece
    }
}

/// The lines of a text.
pub open spec fn lines_of(text: Seq<char>) -> Seq<Seq<char>> {
    let pieces = split_text(text, seq!['\n']);
    Seq::new(pieces.len(), |i: int| line_of(pieces[i], i + 1 < pieces.len()))
}

/// The parts without the empty ones at the front.
pub open spec fn skip_leading_empty(parts: Seq<Seq<char>>) -> Seq<Seq<char>>
    decreases parts.len(),
{
    if parts.len() > 0 && parts[0].len() == 0 {
        skip_leading_empty(parts.skip(1))
    } else {
        parts
    }
}

/// The segments of a line of the list that count: those that are `..` are
/// taken out, then the empty ones at the front.
pub open spec fn clean_segments(line: Seq<char>) -> Seq<Seq<char>> {
    skip_leading_empty(without_dotdot(split_text(line, slash())))
}

/// The steps for one line of the list: make sure the directory of the file
/// is there, then download the file to its place below `tmp`.
pub open spec fn line_script(
    tmp: Seq<char>,
    base_url: Seq<char>,
    subpath: Seq<char>,
    line: Seq<char>,
) -> Seq<ActionView> {
    let segs = clean_segments(line);
    let rel = join_text(segs, slash());
    let dir = if segs.len() <= 1 {
        tmp
    } else {
        child(tmp, join_text(segs.drop_last(), slash()))
    };
    seq![
        ActionView::CreateDirs { path: dir },
        ActionView::Download { url: child(child(base_url, subpath), rel), to: child(tmp, rel) },
    ]
}

/// The steps that fill `tmp` with a remote tree, given the lines of its list:
/// those of each line that is not empty, in the order of the lines.
pub open spec fn remote_script(
    tmp: Seq<char>,
    base_url: Seq<char>,
    subpath: Seq<char>,
    lines: Seq<Seq<char>>,
) -> Seq<ActionView>
    decreases lines.len(),
{
    if lines.len() == 0 {
        Seq::empty()
    } else {
        remote_script(tmp, base_url, subpath, lines.drop_last()) + if lines.last().len() == 0 {
            Seq::empty()
        } else {
            line_script(tmp, base_url, subpath, lines.last())
        }
    }
}

/// The path that an action writes, creates or removes, if it names one.
/// What a command line touches is not known here.
pub open spec fn target_of(action: ActionView) -> Option<Seq<char>> {
    match action {
        ActionView::Probe { .. } => None,
        ActionView::CreateDirs { path } => Some(path),
        ActionView::Lock { path } => Some(path),
        ActionView::RemoveTree { path } => Some(path),
        ActionView::DownloadJob { to, .. } => Some(to),
        ActionView::FetchList { .. } => None,
        ActionView::Download { to, .. } => Some(to),
        ActionView::Run { .. } => None,
        ActionView::WriteFile { path, .. } => Some(path),
        ActionView::RemoveFile { path } => Some(path),
        ActionView::Rename { to, .. } => Some(to),
    }
}

/// Whether every path that the actions name as a target is `dir` itself or
/// stays below it.
pub open spec fn targets_within(actions: Seq<ActionView>, dir: Seq<char>) -> bool {
    forall|i: int|
        0 <= i < actions.len() ==> (target_of(#[trigger] actions[i]) matches Some(path) ==> path
            == dir || stays_below(dir, path))
}

/// Dropping empty parts at the front leaves a tail of the parts.
proof fn lemma_skip_leading_empty(parts: Seq<Seq<char>>)
    ensures
        exists|from: int|
            0 <= from <= parts.len() && skip_leading_empty(parts) == #[trigger] parts.skip(from),
    decreases parts.len(),
{
    if parts.len() > 0 && parts[0].len() == 0 {
        lemma_skip_leading_empty(parts.skip(1));
        let from = choose|from: int|
            0 <= from <= parts.skip(1).len() && skip_leading_empty(parts.skip(1))
                == #[trigger] parts.skip(1).skip(from);
        assert(parts.skip(1).skip(from) =~= parts.skip(from + 1));
    } else {
        assert(parts.skip(0) =~= parts);
    }
}

/// The segments of a line that count have no slash, and none is `..`.
proof fn lemma_clean_segments(line: Seq<char>)
    ensures
        forall|i: int|
            0 <= i < clean_segments(line).len() ==> !(#[trigger] clean_segments(line)[i]).contains(
                '/',
            ),
        !clean_segments(line).contains(dotdot()),
{
    let parts = split_text(line, slash());
    let kept = without_dotdot(parts);
    let segs = clean_segments(line);
    assert(slash() =~= seq!['/']);
    lemma_split_parts_plain(line, '/');
    lemma_skip_leading_empty(kept);
    let from = choose|from: int|
        0 <= from <= kept.len() && skip_leading_empty(kept) == #[trigger] kept.skip(from);
    assert forall|i: int| 0 <= i < segs.len() implies !(#[trigger] segs[i]).contains('/')
        && segs[i] != dotdot() by {
        assert(segs[i] == kept[i + from]);
        assert(kept.contains(kept[i + from]));
        parts.lemma_filter_contains_rev(not_dotdot(), kept[i + from]);
        parts.lemma_filter_pred(not_dotdot(), i + from);
    }
}

/// Whatever a line of the list says, its steps stay within `tmp`.
pub proof fn lemma_line_script_within(
    tmp: Seq<char>,
    base_url: Seq<char>,
    subpath: Seq<char>,
    line: Seq<char>,
)
    ensures
        targets_within(line_script(tmp, base_url, subpath, line), tmp),
{
    let segs = clean_segments(line);
    lemma_clean_segments(line);
    lemma_descends_joined(segs);
    lemma_child_stays_below(tmp, join_text(segs, slash()));
    if segs.len() > 1 {
        let front = segs.drop_last();
        assert forall|i: int| 0 <= i < front.len() implies !(#[trigger] front[i]).contains('/') by {
            assert(front[i] == segs[i]);
        }
        if front.contains(dotdot()) {
            let i = choose|i: int| 0 <= i < front.len() && front[i] == dotdot();
            assert(segs[i] == dotdot());
        }
        lemma_descends_joined(front);
        lemma_child_stays_below(tmp, join_text(front, slash()));
    }
}

/// Path safety of the remote fetch: whatever the list says, every file is
/// written below `tmp` and every directory is created at or below it.
pub proof fn lemma_remote_script_within(
    tmp: Seq<char>,
    base_url: Seq<char>,
    subpath: Seq<char>,
    lines: Seq<Seq<char>>,
)
    ensures
        targets_within(remote_script(tmp, base_url, subpath, lines), tmp),
    decreases lines.len(),
{
    if lines.len() > 0 {
        lemma_remote_script_within(tmp, base_url, subpath, lines.drop_last());
        lemma_line_script_within(tmp, base_url, subpath, lines.last());
        let before = remote_script(tmp, base_url, subpath, lines.drop_last());
        let all = remote_script(tmp, base_url, subpath, lines);
        assert forall|i: int| 0 <= i < all.len() implies (target_of(#[trigger] all[i]) matches Some(
            path,
        ) ==> path == tmp || stays_below(tmp, path)) by {
            if i < before.len() {
                assert(all[i] == before[i]);
            } else {
                let last = line_script(tmp, base_url, subpath, lines.last());
                assert(all[i] == last[i - before.len()]);
            }
        }
    }
}

/// The steps for the artifacts of a job write below `tmp` only.
pub proof fn lemma_job_script_within(
    tmp: Seq<char>,
    source_name: Seq<char>,
    project: Seq<char>,
    job_id: u64,
)
    ensures
        targets_within(job_script(tmp, source_name, project, job_id), tmp),
{
    reveal_strlit("artifacts_zip");
    let name = zip_name();
    assert(!name.contains('/')) by {
        if name.contains('/') {
            let i = choose|i: int| 0 <= i < name.len() && name[i] == '/';
            assert(name[i] != '/');
        }
    }
    assert(name != dotdot()) by {
        assert(name.len() == 13);
    }
    lemma_descends_plain(name);
    lemma_child_stays_below(tmp, name);
}

/// The steps that fill `tmp` with the artifacts of a job.
pub fn job_actions(tmp: &str, source_name: &str, project: &str, job_id: u64) -> (script: Vec<Action>)
    ensures
        action_views(script@) == job_script(tmp@, source_name@, project@, job_id),
{
    let zip = child_path(tmp, "artifacts_zip");
    let mut command: Vec<char> = Vec::new();
    append_str(&mut command, "unzip ");
    append_str(&mut command, zip.as_str());
    append_str(&mut command, " -d ");
    append_str(&mut command, tmp);
    assert(command@ =~= unpack_command(zip@, tmp@));
    let mut script: Vec<Action> = Vec::new();
    script.push(
        Action::DownloadJob {
            source_name: source_name.to_owned(),
            project: project.to_owned(),
            job_id,
            to: zip.clone(),
        },
    );
    script.push(Action::Run { command: string_of(command.as_slice()) });
    script.push(Action::RemoveFile { path: zip });
    assert(action_views(script@) =~= job_script(tmp@, source_name@, project@, job_id));
    script
}

/// Where the list of files of a remote tree is.
pub fn list_url_of(base_url: &str, subpath: &str) -> (url: String)
    ensures
        url@ == list_url(base_url@, subpath@),
{
    let dir = child_path(base_url, subpath);
    child_path(dir.as_str(), "list.txt")
}

/// The lines of a text.
pub fn lines(text: &[char]) -> (out: Vec<Vec<char>>)
    ensures
        views(out@) == lines_of(text@),
{
    let mut feed: Vec<char> = Vec::new();
    feed.push('\n');
    assert(feed@ =~= seq!['\n']);
    let pieces = split(text, feed.as_slice());
    let ghost all = views(pieces@);
    let mut out: Vec<Vec<char>> = Vec::new();
    let mut i: usize = 0;
    while i < pieces.len()
        invariant
            i <= pieces@.len(),
            all == views(pieces@),
            views(out@) == Seq::new(
                i as nat,
                |k: int| line_of(all[k], k + 1 < all.len()),
            ),
        decreases pieces@.len() - i,
    {
        let piece = &pieces[i];
        let n = piece.len();
        let mut line = copy_chars(piece.as_slice());
        if i + 1 < pieces.len() && n > 0 && piece[n - 1] == '\r' {
            line.pop();
            assert(line@ =~= piece@.drop_last());
        }
        let ghost before = views(out@);
        out.push(line);
        assert(views(out@) =~= before.push(line_of(all[i as int], i + 1 < all.len())));
        i += 1;
    }
    assert(views(out@) =~= lines_of(text@));
    out
}

/// The place of the first part that is not empty, or the number of parts.
fn first_not_empty(parts: &Vec<Vec<char>>) -> (from: usize)
    ensures
        from <= parts@.len(),
        skip_leading_empty(views(parts@)) == views(parts@).skip(from as int),
{
    let mut from: usize = 0;
    let ghost all = views(parts@);
    assert(all.skip(0) =~= all);
    while from < parts.len() && parts[from].len() == 0
        invariant
            from <= parts@.len(),
            all == views(parts@),
            skip_leading_empty(all) == skip_leading_empty(all.skip(from as int)),
        decreases parts@.len() - from,
    {
        assert(all.skip(from as int).skip(1) =~= all.skip(from + 1));
        assert(all.skip(from as int)[0] == parts@[from as int]@);
        from += 1;
    }
    proof {
        let rest = all.skip(from as int);
        if from < parts@.len() {
            assert(rest[0] == parts@[from as int]@);
        }
    }
    from
}

/// The steps that fill `tmp` with a remote tree whose list of files reads
/// `list`.
pub fn remote_actions(tmp: &str, base_url: &str, subpath: &str, list: &str) -> (script: Vec<Action>)
    ensures
        action_views(script@) == remote_script(tmp@, base_url@, subpath@, lines_of(list@)),
{
    let text = chars_of(list);
    let all_lines = lines(text.as_slice());
    let sep = slash_chars();
    let remote_dir = child_path(base_url, subpath);
    let ghost all = views(all_lines@);
    let mut script: Vec<Action> = Vec::new();
    let mut i: usize = 0;
    assert(all.take(0) =~= Seq::<Seq<char>>::empty());
    assert(action_views(script@) =~= Seq::<ActionView>::empty());
    while i < all_lines.len()
        invariant
            i <= all_lines@.len(),
            all == views(all_lines@),
            sep@ == slash(),
            remote_dir@ == child(base_url@, subpath@),
            action_views(script@) == remote_script(tmp@, base_url@, subpath@, all.take(i as int)),
        decreases all_lines@.len() - i,
    {
        assert(all.take(i + 1).drop_last() =~= all.take(i as int));
        assert(all.take(i + 1).last() == all_lines@[i as int]@);
        let line = &all_lines[i];
        if line.len() > 0 {
            let parts = split(line.as_slice(), sep.as_slice());
            let kept = keep_without_dotdot(&parts, 0);
            assert(views(parts@).skip(0) =~= views(parts@));
            let from = first_not_empty(&kept);
            let ghost segs = clean_segments(line@);
            assert(segs == views(kept@).skip(from as int));
            assert(views(kept@).subrange(from as int, kept@.len() as int) =~= segs);
            let rel = string_of(
                join_between(kept.as_slice(), from, kept.len(), sep.as_slice()).as_slice(),
            );
            let dir = if kept.len() - from <= 1 {
                tmp.to_owned()
            } else {
                assert(views(kept@).subrange(from as int, kept@.len() - 1) =~= segs.drop_last());
                let front = string_of(
                    join_between(kept.as_slice(), from, kept.len() - 1, sep.as_slice()).as_slice(),
                );
                child_path(tmp, front.as_str())
            };
            let ghost before = action_views(script@);
            script.push(Action::CreateDirs { path: dir });
            script.push(
                Action::Download {
                    url: child_path(remote_dir.as_str(), rel.as_str()),
                    to: child_path(tmp, rel.as_str()),
                },
            );
            assert(action_views(script@) =~= before + line_script(
                tmp@,
                base_url@,
                subpath@,
                line@,
            ));
        } else {
            assert(action_views(script@) + Seq::<ActionView>::empty() =~= action_views(script@));
        }
        i += 1;
    }
    assert(all.take(all_lines@.len() as int) =~= all);
    script
}

} // verus!
