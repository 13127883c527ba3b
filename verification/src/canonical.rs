//! A plan written out in one fixed way, for hashing.
//!
//! The text names every variant and every field in the order of their
//! declaration, quotes every text and writes numbers in decimal. It leaves
//! out the path inside the composite. Plans with different artifacts are
//! written differently.

use crate::plan::Artifact;
use crate::plan::ArtifactView;
use crate::plan::Kind;
use crate::plan::Plan;
use crate::plan::PlanView;
use crate::quote::lemma_quoted_ends;
use crate::quote::push_quoted;
use crate::quote::quoted;
use crate::text::append_chars;
use crate::text::append_str;
use crate::text::decimal;
use crate::text::decimal_text;
use crate::text::is_digit;
use crate::text::lemma_decimal_ends;
use crate::text::string_of;
use vstd::prelude::*;

verus! {

/// A kind of repository written out.
pub open spec fn kind_text(kind: Kind) -> Seq<char> {
    match kind {
        Kind::RPM => "RPM"@,
    }
}

/// An artifact written out: its variant, then its fields by name in the
/// order of their declaration, texts quoted and the job number in decimal.
pub open spec fn artifact_text(artifact: ArtifactView) -> Seq<char> {
    match artifact {
        ArtifactView::GitlabJob { source_name, project, job_id } => {
            "GitlabJob(JobArtifact { source_name: "@ + quoted(source_name) + ", project: "@
                + quoted(project) + ", job_id: "@ + decimal_text(job_id as nat) + " })"@
        },
        ArtifactView::Local { source_name, key } => {
            "Local(LocalArtifact { source_name: "@ + quoted(source_name) + ", key: "@ + quoted(key)
                + " })"@
        },
        ArtifactView::Remote { source_name, subpath } => {
            "Remote(StaticRemoteArtifact { source_name: "@ + quoted(source_name) + ", subpath: "@
                + quoted(subpath) + " })"@
        },
    }
}

/// The artifacts written out in their order, with a comma and a blank
/// between neighbours.
pub open spec fn artifacts_text(artifacts: Seq<ArtifactView>) -> Seq<char>
    decreases artifacts.len(),
{
    if artifacts.len() == 0 {
        Seq::empty()
    } else if artifacts.len() == 1 {
        artifact_text(artifacts[0])
    } else {
        artifacts_text(artifacts.drop_last()) + between() + artifact_text(artifacts.last())
    }
}

/// A plan written out for hashing. The path inside the composite is always
/// written as the empty text, whatever the plan holds.
pub open spec fn canonical_text(plan: PlanView) -> Seq<char> {
    "Plan { artifacts: ["@ + artifacts_text(plan.artifacts) + "], sub_uri: \"\", kind: "@
        + kind_text(plan.kind) + " }"@
}

/// Plans with the same artifacts and the same kind are written the same,
/// whatever path inside the composite each one reads.
pub proof fn lemma_canonical_text_ignores_sub_uri(p: PlanView, q: PlanView)
    requires
        p.artifacts == q.artifacts,
        p.kind == q.kind,
    ensures
        canonical_text(p) == canonical_text(q),
{
}

/// What follows the same beginning in two texts that are the same is the
/// same.
proof fn lemma_cancel_front(front: Seq<char>, u: Seq<char>, v: Seq<char>)
    requires
        front + u == front + v,
    ensures
        u == v,
{
    assert(u =~= (front + u).skip(front.len() as int));
    assert(v =~= (front + v).skip(front.len() as int));
}

/// An artifact's text begins with the first letter of its variant.
proof fn lemma_artifact_text_begins(artifact: ArtifactView)
    ensures
        artifact_text(artifact).len() > 0,
        artifact_text(artifact)[0] == match artifact {
            ArtifactView::GitlabJob { .. } => 'G',
            ArtifactView::Local { .. } => 'L',
            ArtifactView::Remote { .. } => 'R',
        },
{
    reveal_strlit("GitlabJob(JobArtifact { source_name: ");
    reveal_strlit("Local(LocalArtifact { source_name: ");
    reveal_strlit("Remote(StaticRemoteArtifact { source_name: ");
}

/// Two quoted texts behind fixed texts can be read back in one way only.
proof fn lemma_two_quoted(
    tag: Seq<char>,
    second: Seq<char>,
    s1: Seq<char>,
    k1: Seq<char>,
    s2: Seq<char>,
    k2: Seq<char>,
    after_a: Seq<char>,
    after_b: Seq<char>,
)
    requires
        tag + quoted(s1) + second + quoted(k1) + after_a == tag + quoted(s2) + second + quoted(k2)
            + after_b,
    ensures
        s1 == s2,
        k1 == k2,
        after_a == after_b,
{
    let x = tag + quoted(s1) + second + quoted(k1) + after_a;
    let y = tag + quoted(s2) + second + quoted(k2) + after_b;
    let r1 = second + (quoted(k1) + after_a);
    let r2 = second + (quoted(k2) + after_b);
    assert(x =~= tag + (quoted(s1) + r1));
    assert(y =~= tag + (quoted(s2) + r2));
    lemma_cancel_front(tag, quoted(s1) + r1, quoted(s2) + r2);
    lemma_quoted_ends(s1, s2, r1, r2);
    lemma_cancel_front(second, quoted(k1) + after_a, quoted(k2) + after_b);
    lemma_quoted_ends(k1, k2, after_a, after_b);
}

/// Two quoted texts between fixed texts can be read back in one way only.
proof fn lemma_two_quoted_end(
    tag: Seq<char>,
    second: Seq<char>,
    end: Seq<char>,
    s1: Seq<char>,
    k1: Seq<char>,
    s2: Seq<char>,
    k2: Seq<char>,
    after_a: Seq<char>,
    after_b: Seq<char>,
)
    requires
        tag + quoted(s1) + second + quoted(k1) + end + after_a == tag + quoted(s2) + second
            + quoted(k2) + end + after_b,
    ensures
        s1 == s2,
        k1 == k2,
        after_a == after_b,
{
    let x = tag + quoted(s1) + second + quoted(k1) + end + after_a;
    let y = tag + quoted(s2) + second + quoted(k2) + end + after_b;
    assert(x =~= tag + quoted(s1) + second + quoted(k1) + (end + after_a));
    assert(y =~= tag + quoted(s2) + second + quoted(k2) + (end + after_b));
    lemma_two_quoted(tag, second, s1, k1, s2, k2, end + after_a, end + after_b);
    lemma_cancel_front(end, after_a, after_b);
}

/// Two quoted texts and a number between fixed texts can be read back in one
/// way only, where the text behind the number begins with no digit.
proof fn lemma_two_quoted_number_end(
    tag: Seq<char>,
    second: Seq<char>,
    third: Seq<char>,
    end: Seq<char>,
    s1: Seq<char>,
    p1: Seq<char>,
    n1: nat,
    s2: Seq<char>,
    p2: Seq<char>,
    n2: nat,
    after_a: Seq<char>,
    after_b: Seq<char>,
)
    requires
        end.len() > 0,
        !is_digit(end[0]),
        tag + quoted(s1) + second + quoted(p1) + third + decimal_text(n1) + end + after_a == tag
            + quoted(s2) + second + quoted(p2) + third + decimal_text(n2) + end + after_b,
    ensures
        s1 == s2,
        p1 == p2,
        n1 == n2,
        after_a == after_b,
{
    let d1 = decimal_text(n1);
    let d2 = decimal_text(n2);
    let x = tag + quoted(s1) + second + quoted(p1) + third + d1 + end + after_a;
    let y = tag + quoted(s2) + second + quoted(p2) + third + d2 + end + after_b;
    let t1 = third + (d1 + (end + after_a));
    let t2 = third + (d2 + (end + after_b));
    assert(x =~= tag + quoted(s1) + second + quoted(p1) + t1);
    assert(y =~= tag + quoted(s2) + second + quoted(p2) + t2);
    lemma_two_quoted(tag, second, s1, p1, s2, p2, t1, t2);
    lemma_cancel_front(third, d1 + (end + after_a), d2 + (end + after_b));
    assert((end + after_a)[0] == end[0]);
    assert((end + after_b)[0] == end[0]);
    lemma_decimal_ends(n1, n2, end + after_a, end + after_b);
    lemma_cancel_front(end, after_a, after_b);
}

/// An artifact's text can be read back in one way only: where the text of an
/// artifact and more is the same as the text of another and more, the two
/// artifacts are the same, and so is what follows their texts.
pub proof fn lemma_artifact_text_ends(
    a: ArtifactView,
    b: ArtifactView,
    after_a: Seq<char>,
    after_b: Seq<char>,
)
    requires
        artifact_text(a) + after_a == artifact_text(b) + after_b,
    ensures
        a == b,
        after_a == after_b,
{
    lemma_artifact_text_begins(a);
    lemma_artifact_text_begins(b);
    assert((artifact_text(a) + after_a)[0] == artifact_text(a)[0]);
    assert((artifact_text(b) + after_b)[0] == artifact_text(b)[0]);
    match (a, b) {
        (
            ArtifactView::GitlabJob { source_name: s1, project: p1, job_id: n1 },
            ArtifactView::GitlabJob { source_name: s2, project: p2, job_id: n2 },
        ) => {
            assert(" })"@.len() > 0 && !is_digit(" })"@[0])) by {
                reveal_strlit(" })");
            }
            lemma_two_quoted_number_end(
                "GitlabJob(JobArtifact { source_name: "@,
                ", project: "@,
                ", job_id: "@,
                " })"@,
                s1,
                p1,
                n1 as nat,
                s2,
                p2,
                n2 as nat,
                after_a,
                after_b,
            );
        },
        (
            ArtifactView::Local { source_name: s1, key: k1 },
            ArtifactView::Local { source_name: s2, key: k2 },
        ) => {
            lemma_two_quoted_end(
                "Local(LocalArtifact { source_name: "@,
                ", key: "@,
                " })"@,
                s1,
                k1,
                s2,
                k2,
                after_a,
                after_b,
            );
        },
        (
            ArtifactView::Remote { source_name: s1, subpath: k1 },
            ArtifactView::Remote { source_name: s2, subpath: k2 },
        ) => {
            lemma_two_quoted_end(
                "Remote(StaticRemoteArtifact { source_name: "@,
                ", subpath: "@,
                " })"@,
                s1,
                k1,
                s2,
                k2,
                after_a,
                after_b,
            );
        },
        _ => {
            assert(false);
        },
    }
}

/// What is written between two artifacts.
pub open spec fn between() -> Seq<char> {
    ", "@
}

/// The artifacts are written one by one from the front as well.
proof fn lemma_artifacts_text_front(first: ArtifactView, rest: Seq<ArtifactView>)
    ensures
        artifacts_text(seq![first] + rest) == artifact_text(first) + if rest.len() == 0 {
            Seq::<char>::empty()
        } else {
            between() + artifacts_text(rest)
        },
    decreases rest.len(),
{
    let all = seq![first] + rest;
    if rest.len() == 0 {
        assert(all =~= seq![first]);
        assert(artifact_text(first) + Seq::<char>::empty() =~= artifact_text(first));
    } else {
        assert(all.drop_last() =~= seq![first] + rest.drop_last());
        assert(all.last() == rest.last());
        lemma_artifacts_text_front(first, rest.drop_last());
        if rest.len() == 1 {
            assert(rest.drop_last() =~= Seq::<ArtifactView>::empty());
            assert(artifacts_text(all) =~= artifact_text(first) + (between() + artifacts_text(
                rest,
            )));
        } else {
            assert(artifacts_text(all) =~= artifact_text(first) + (between() + artifacts_text(
                rest,
            )));
        }
    }
}

/// A list of artifacts that is closed by a square bracket can be read back
/// in one way only.
pub proof fn lemma_artifacts_text_ends(
    a: Seq<ArtifactView>,
    b: Seq<ArtifactView>,
    after_a: Seq<char>,
    after_b: Seq<char>,
)
    requires
        artifacts_text(a) + seq![']'] + after_a == artifacts_text(b) + seq![']'] + after_b,
    ensures
        a == b,
        after_a == after_b,
    decreases a.len(),
{
    let close = seq![']'];
    let x = artifacts_text(a) + close + after_a;
    let y = artifacts_text(b) + close + after_b;
    reveal_strlit(", ");
    if a.len() == 0 {
        assert(x[0] == ']');
        if b.len() > 0 {
            assert(seq![b[0]] + b.skip(1) =~= b);
            lemma_artifacts_text_front(b[0], b.skip(1));
            lemma_artifact_text_begins(b[0]);
            assert(y[0] == artifact_text(b[0])[0]);
            assert(false);
        }
        assert(a =~= b);
        assert(after_a =~= x.skip(1));
        assert(after_b =~= y.skip(1));
    } else {
        assert(seq![a[0]] + a.skip(1) =~= a);
        lemma_artifacts_text_front(a[0], a.skip(1));
        lemma_artifact_text_begins(a[0]);
        assert(x[0] == artifact_text(a[0])[0]);
        if b.len() == 0 {
            assert(y[0] == ']');
            assert(false);
        }
        assert(seq![b[0]] + b.skip(1) =~= b);
        lemma_artifacts_text_front(b[0], b.skip(1));
        let rest_a = a.skip(1);
        let rest_b = b.skip(1);
        let tail_a = if rest_a.len() == 0 {
            close + after_a
        } else {
            between() + (artifacts_text(rest_a) + close + after_a)
        };
        let tail_b = if rest_b.len() == 0 {
            close + after_b
        } else {
            between() + (artifacts_text(rest_b) + close + after_b)
        };
        assert(x =~= artifact_text(a[0]) + tail_a);
        assert(y =~= artifact_text(b[0]) + tail_b);
        lemma_artifact_text_ends(a[0], b[0], tail_a, tail_b);
        assert(tail_a[0] == if rest_a.len() == 0 {
            ']'
        } else {
            ','
        });
        assert(tail_b[0] == if rest_b.len() == 0 {
            ']'
        } else {
            ','
        });
        if rest_a.len() == 0 {
            assert(rest_a =~= rest_b);
            lemma_cancel_front(close, after_a, after_b);
        } else {
            lemma_cancel_front(
                between(),
                artifacts_text(rest_a) + close + after_a,
                artifacts_text(rest_b) + close + after_b,
            );
            lemma_artifacts_text_ends(rest_a, rest_b, after_a, after_b);
        }
        assert(a =~= b);
    }
}

/// Plans that are written the same have the same artifacts in the same
/// order, and are of the same kind.
pub proof fn lemma_canonical_text_tells_plans_apart(p: PlanView, q: PlanView)
    requires
        canonical_text(p) == canonical_text(q),
    ensures
        p.artifacts == q.artifacts,
        p.kind == q.kind,
{
    let open = "Plan { artifacts: ["@;
    let middle = "], sub_uri: \"\", kind: "@;
    let end = " }"@;
    reveal_strlit("], sub_uri: \"\", kind: ");
    let close = seq![']'];
    let after_p = middle.skip(1) + kind_text(p.kind) + end;
    let after_q = middle.skip(1) + kind_text(q.kind) + end;
    assert(middle =~= close + middle.skip(1));
    assert(canonical_text(p) =~= open + (artifacts_text(p.artifacts) + close + after_p));
    assert(canonical_text(q) =~= open + (artifacts_text(q.artifacts) + close + after_q));
    lemma_cancel_front(
        open,
        artifacts_text(p.artifacts) + close + after_p,
        artifacts_text(q.artifacts) + close + after_q,
    );
    lemma_artifacts_text_ends(p.artifacts, q.artifacts, after_p, after_q);
}

fn push_artifact(out: &mut Vec<char>, artifact: &Artifact)
    ensures
        final(out)@ == old(out)@ + artifact_text(artifact@),
{
    match artifact {
        Artifact::GitlabJob(job) => {
            append_str(out, "GitlabJob(JobArtifact { source_name: ");
            push_quoted(out, job.source_name.as_str());
            append_str(out, ", project: ");
            push_quoted(out, job.project.as_str());
            append_str(out, ", job_id: ");
            let number = decimal(job.job_id);
            append_chars(out, number.as_slice());
            append_str(out, " })");
        },
        Artifact::Local(local) => {
            append_str(out, "Local(LocalArtifact { source_name: ");
            push_quoted(out, local.source_name.as_str());
            append_str(out, ", key: ");
            push_quoted(out, local.key.as_str());
            append_str(out, " })");
        },
        Artifact::Remote(remote) => {
            append_str(out, "Remote(StaticRemoteArtifact { source_name: ");
            push_quoted(out, remote.source_name.as_str());
            append_str(out, ", subpath: ");
            push_quoted(out, remote.subpath.as_str());
            append_str(out, " })");
        },
    }
    assert(out@ =~= old(out)@ + artifact_text(artifact@));
}

impl Plan {
    /// The plan written out for hashing.
    pub fn canonical(&self) -> (text: String)
        ensures
            text@ == canonical_text(self@),
    {
        let mut out: Vec<char> = Vec::new();
        append_str(&mut out, "Plan { artifacts: [");
        let ghost opened = out@;
        let ghost all = self@.artifacts;
        let mut i: usize = 0;
        assert(all.take(0) =~= Seq::<ArtifactView>::empty());
        assert(out@ =~= opened + artifacts_text(all.take(0)));
        while i < self.artifacts.len()
            invariant
                i <= self.artifacts@.len(),
                all == self@.artifacts,
                out@ == opened + artifacts_text(all.take(i as int)),
            decreases self.artifacts@.len() - i,
        {
            assert(all.take(i + 1).drop_last() =~= all.take(i as int));
            assert(all.take(i + 1).last() == self.artifacts@[i as int]@);
            if i > 0 {
                append_str(&mut out, ", ");
            }
            push_artifact(&mut out, &self.artifacts[i]);
            assert(out@ =~= opened + artifacts_text(all.take(i + 1)));
            i += 1;
        }
        assert(all.take(self.artifacts@.len() as int) =~= all);
        append_str(&mut out, "], sub_uri: \"\", kind: ");
        match self.kind {
            Kind::RPM => {
                append_str(&mut out, "RPM");
            },
        }
        append_str(&mut out, " }");
        assert(out@ =~= canonical_text(self@));
        string_of(out.as_slice())
    }
}

} // verus!
