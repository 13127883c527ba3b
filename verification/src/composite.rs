//! Composites: the name under which the composite of a plan is kept, and
//! the steps that put it together.
//!
//! The name is the SHA-256 digest, in lowercase hexadecimal, of the plan
//! written out in one fixed way, with the path inside the composite left
//! empty: requests that differ only in the file they read share a composite.

use crate::action::Action;
use crate::action::action_views;
use crate::action::ActionView;
use crate::canonical::canonical_text;
use crate::config::Config;
use crate::digest::hex_encode;
use crate::digest::hex_text;
use crate::digest::sha256;
use crate::digest::sha256_digest;
use crate::fetch::target_of;
use crate::fetch::targets_within;
use crate::layout::child;
use crate::layout::child_path;
use crate::layout::lemma_child_stays_below;
use crate::layout::lemma_descends_plain;
use crate::layout::source_path_of;
use crate::layout::stays_below;
use crate::plan::ArtifactView;
use crate::plan::dotdot;
use crate::plan::Kind;
use crate::plan::Plan;
use crate::plan::PlanView;
use crate::text::append_str;
use crate::text::decimal;
use crate::text::decimal_text;
use crate::text::string_of;
use vstd::prelude::*;
use vstd::utf8::encode_utf8;

verus! {

/// The name of the composite of a plan.
pub open spec fn composite_name(plan: PlanView) -> Seq<char> {
    hex_text(sha256(encode_utf8(canonical_text(plan))))
}

/// Plans with the same artifacts and the same kind have the same composite,
/// whatever path inside it each one reads.
pub proof fn lemma_composite_name_ignores_sub_uri(p: PlanView, q: PlanView)
    requires
        p.artifacts == q.artifacts,
        p.kind == q.kind,
    ensures
        composite_name(p) == composite_name(q),
{
}

/// The command line that copies the tree at `src` into the directory `dst`,
/// by hard links where it can and file by file where it cannot.
pub open spec fn copy_command(src: Seq<char>, dst: Seq<char>) -> Seq<char> {
    "cp -al "@ + src + " "@ + dst + "/ || cp -a "@ + src + " "@ + dst + "/"@
}

/// The command line that writes the index of a repository of that kind over
/// the tree at `tmp`.
pub open spec fn index_command(kind: Kind, tmp: Seq<char>) -> Seq<char> {
    match kind {
        Kind::RPM => "createrepo "@ + tmp,
    }
}

/// The name of the file that keeps the request path.
pub open spec fn url_file() -> Seq<char> {
    "url.txt"@
}

/// Where the files of each artifact are, in the order of the plan.
pub open spec fn sources_of(artifacts: Seq<ArtifactView>, config: Config) -> Seq<
    Option<Seq<char>>,
> {
    Seq::new(artifacts.len(), |i: int| source_path_of(artifacts[i], config))
}

/// The steps that copy the artifacts: the one at place `i` of the plan goes
/// into the directory named `i` in decimal below `tmp`. An artifact without a
/// place to copy from is passed over, and its number stays unused.
pub open spec fn copy_script(tmp: Seq<char>, sources: Seq<Option<Seq<char>>>) -> Seq<ActionView>
    decreases sources.len(),
{
    if sources.len() == 0 {
        Seq::empty()
    } else {
        copy_script(tmp, sources.drop_last()) + match sources.last() {
            Some(src) => seq![
                ActionView::Run {
                    command: copy_command(
                        src,
                        child(tmp, decimal_text((sources.len() - 1) as nat)),
                    ),
                },
            ],
            None => Seq::empty(),
        }
    }
}

/// The steps that put a composite together in `tmp`: copy the artifacts,
/// keep the request path in a file, write the index.
pub open spec fn composite_script(
    tmp: Seq<char>,
    sources: Seq<Option<Seq<char>>>,
    uri: Seq<char>,
    kind: Kind,
) -> Seq<ActionView> {
    copy_script(tmp, sources) + seq![
        ActionView::WriteFile { path: child(tmp, url_file()), contents: uri },
        ActionView::Run { command: index_command(kind, tmp) },
    ]
}

/// The steps that copy the artifacts name no path as their target: they are
/// command lines.
proof fn lemma_copy_script_within(tmp: Seq<char>, sources: Seq<Option<Seq<char>>>)
    ensures
        targets_within(copy_script(tmp, sources), tmp),
    decreases sources.len(),
{
    if sources.len() > 0 {
        lemma_copy_script_within(tmp, sources.drop_last());
        let before = copy_script(tmp, sources.drop_last());
        let all = copy_script(tmp, sources);
        assert forall|i: int| 0 <= i < all.len() implies (target_of(
            #[trigger] all[i],
        ) matches Some(path) ==> path == tmp || stays_below(tmp, path)) by {
            if i < before.len() {
                assert(all[i] == before[i]);
            }
        }
    }
}

/// The one file that the steps of a composite write by name is below `tmp`.
pub proof fn lemma_composite_script_within(
    tmp: Seq<char>,
    sources: Seq<Option<Seq<char>>>,
    uri: Seq<char>,
    kind: Kind,
)
    ensures
        targets_within(composite_script(tmp, sources, uri, kind), tmp),
{
    lemma_copy_script_within(tmp, sources);
    reveal_strlit("url.txt");
    let name = url_file();
    assert(!name.contains('/')) by {
        if name.contains('/') {
            let i = choose|i: int| 0 <= i < name.len() && name[i] == '/';
            assert(name[i] != '/');
        }
    }
    assert(name != dotdot()) by {
        assert(name.len() == 7);
    }
    lemma_descends_plain(name);
    lemma_child_stays_below(tmp, name);
    let copies = copy_script(tmp, sources);
    let all = composite_script(tmp, sources, uri, kind);
    assert forall|i: int| 0 <= i < all.len() implies (target_of(
        #[trigger] all[i],
    ) matches Some(path) ==> path == tmp || stays_below(tmp, path)) by {
        if i < copies.len() {
            assert(all[i] == copies[i]);
        }
    }
}

impl Plan {
    /// The steps that put the composite of this plan together in `tmp`, for
    /// the request path `uri`.
    pub fn composite_actions(&self, config: &Config, tmp: &str, uri: &str) -> (script: Vec<Action>)
        ensures
            action_views(script@) == composite_script(
                tmp@,
                sources_of(self@.artifacts, *config),
                uri@,
                self.kind,
            ),
    {
        let ghost sources = sources_of(self@.artifacts, *config);
        let mut script: Vec<Action> = Vec::new();
        let mut i: usize = 0;
        assert(sources.take(0) =~= Seq::<Option<Seq<char>>>::empty());
        assert(action_views(script@) =~= Seq::<ActionView>::empty());
        while i < self.artifacts.len()
            invariant
                i <= self.artifacts@.len(),
                sources == sources_of(self@.artifacts, *config),
                action_views(script@) == copy_script(tmp@, sources.take(i as int)),
            decreases self.artifacts@.len() - i,
        {
            assert(sources.take(i + 1).drop_last() =~= sources.take(i as int));
            assert(sources.take(i + 1).last() == source_path_of(
                self.artifacts@[i as int]@,
                *config,
            ));
            let ghost before = action_views(script@);
            match self.artifacts[i].source_path(config) {
                Some(src) => {
                    let number = string_of(decimal(i as u64).as_slice());
                    let dst = child_path(tmp, number.as_str());
                    let mut command: Vec<char> = Vec::new();
                    append_str(&mut command, "cp -al ");
                    append_str(&mut command, src.as_str());
                    append_str(&mut command, " ");
                    append_str(&mut command, dst.as_str());
                    append_str(&mut command, "/ || cp -a ");
                    append_str(&mut command, src.as_str());
                    append_str(&mut command, " ");
                    append_str(&mut command, dst.as_str());
                    append_str(&mut command, "/");
                    assert(command@ =~= copy_command(src@, dst@));
                    script.push(Action::Run { command: string_of(command.as_slice()) });
                    assert(action_views(script@) =~= before + seq![
                        ActionView::Run { command: copy_command(src@, dst@) },
                    ]);
                },
                None => {
                    assert(before + Seq::<ActionView>::empty() =~= before);
                },
            }
            i += 1;
        }
        assert(sources.take(self.artifacts@.len() as int) =~= sources);
        script.push(Action::WriteFile { path: child_path(tmp, "url.txt"), contents: uri.to_owned() });
        let mut command: Vec<char> = Vec::new();
        match self.kind {
            Kind::RPM => {
                append_str(&mut command, "createrepo ");
            },
        }
        append_str(&mut command, tmp);
        assert(command@ =~= index_command(self.kind, tmp@));
        script.push(Action::Run { command: string_of(command.as_slice()) });
        assert(action_views(script@) =~= composite_script(tmp@, sources, uri@, self.kind));
        script
    }

    /// The name of the directory that holds the composite of this plan.
    pub fn to_composite_path(&self) -> (name: String)
        ensures
            name@ == composite_name(self@),
            name@.len() == 64,
    {
        let text = self.canonical();
        let digest = sha256_digest(text.as_str().as_bytes());
        hex_encode(digest.as_slice())
    }
}

} // verus!
