//! Labels and detail-pane rows of product definitions (the assembly nodes):
//! identity, placement, and PLM metadata.
use vstd::prelude::*;
use vstd::string::StringExecFns;
use crate::labels::{
    approval_date_string, approval_date_text, opt_str, opt_text, person_name,
    person_name_string, push_row, push_text_row,
};
use crate::model::{
    ApprovalData, ApproverData, ContributorData, DefData, DocumentData, Fixed3, PlacementData,
    ProductData, SecurityData,
};
use crate::text::{compact_triple, compact_triple_string, join_strings, joined, strings_view};
use crate::tree::{metas_view, text_row, Meta, MetaValue, MetaValueView, MetaView};

verus! {

/// A row for an optional value that is only shown when present and non-empty.
pub open spec fn filled_row(key: Seq<char>, o: Option<String>) -> Seq<MetaView> {
    match o {
        Some(v) => if v@.len() > 0 {
            seq![text_row(key, v@)]
        } else {
            Seq::empty()
        },
        None => Seq::empty(),
    }
}

pub fn push_filled_row(v: &mut Vec<Meta>, key: &str, o: &Option<String>)
    ensures
        metas_view(final(v)@) == metas_view(old(v)@) + filled_row(key@, *o),
{
    match o {
        Some(x) => {
            if x.as_str().unicode_len() > 0 {
                push_text_row(v, key, x.as_str());
            }
        },
        None => {},
    }
    assert(metas_view(final(v)@) =~= metas_view(old(v)@) + filled_row(key@, *o));
}

/// A row shown only when `value` is non-empty.
pub open spec fn nonempty_row(key: Seq<char>, value: Seq<char>) -> Seq<MetaView> {
    if value.len() > 0 {
        seq![text_row(key, value)]
    } else {
        Seq::empty()
    }
}

pub fn push_nonempty_row(v: &mut Vec<Meta>, key: &str, value: &str)
    ensures
        metas_view(final(v)@) == metas_view(old(v)@) + nonempty_row(key@, value@),
{
    if value.unicode_len() > 0 {
        push_text_row(v, key, value);
    }
    assert(metas_view(final(v)@) =~= metas_view(old(v)@) + nonempty_row(key@, value@));
}

// ---------- identity ----------

/// An assembly node's label: the product's name, else the definition's id,
/// else "Part".
pub open spec fn def_label(d: DefData) -> Seq<char> {
    let l = match d.product {
        Some(p) => if p.name@.len() > 0 {
            p.name@
        } else {
            d.id@
        },
        None => d.id@,
    };
    if l.len() == 0 {
        "Part"@
    } else {
        l
    }
}

/// The product's id and name, and the definition's version.
pub open spec fn def_id_rows(d: DefData) -> Seq<MetaView> {
    (match d.product {
        Some(p) => nonempty_row("id"@, p.id@) + nonempty_row("name"@, p.name@),
        None => Seq::empty(),
    }) + filled_row("version"@, d.version)
}

pub fn def_label_meta(d: &DefData) -> (r: (String, Vec<Meta>))
    ensures
        r.0@ == def_label(*d),
        metas_view(r.1@) == def_id_rows(*d),
{
    let mut meta: Vec<Meta> = Vec::new();
    let mut label = d.id.clone();
    match &d.product {
        Some(p) => {
            push_nonempty_row(&mut meta, "id", p.id.as_str());
            push_nonempty_row(&mut meta, "name", p.name.as_str());
            if p.name.as_str().unicode_len() > 0 {
                label = p.name.clone();
            }
        },
        None => {},
    }
    push_filled_row(&mut meta, "version", &d.version);
    if label.as_str().unicode_len() == 0 {
        label = String::from_str("Part");
    }
    assert(metas_view(meta@) =~= def_id_rows(*d));
    (label, meta)
}

// ---------- placement ----------

pub open spec fn fixed3_text(f: Fixed3) -> Seq<char> {
    compact_triple(f.x@, f.y@, f.z@)
}

pub fn fixed3_string(f: &Fixed3) -> (r: String)
    ensures
        r@ == fixed3_text(*f),
{
    compact_triple_string(f.x.as_str(), f.y.as_str(), f.z.as_str())
}

/// The frame a component sits at (origin, axis, reference direction), then
/// its absolute position in the scene (that of placed instance `frame`).
pub open spec fn placement_rows(p: Option<PlacementData>, frame: usize) -> Seq<MetaView> {
    match p {
        Some(p) => seq![
            text_row("origin"@, fixed3_text(p.origin)),
            text_row("axis"@, fixed3_text(p.axis)),
            text_row("ref dir"@, fixed3_text(p.ref_direction)),
            MetaView { key: "world origin"@, value: MetaValueView::WorldOrigin(frame) },
        ],
        None => Seq::empty(),
    }
}

pub fn push_placement_rows(v: &mut Vec<Meta>, p: &Option<PlacementData>, frame: usize)
    ensures
        metas_view(final(v)@) == metas_view(old(v)@) + placement_rows(*p, frame),
{
    match p {
        Some(pl) => {
            let o = fixed3_string(&pl.origin);
            push_text_row(v, "origin", o.as_str());
            let a = fixed3_string(&pl.axis);
            push_text_row(v, "axis", a.as_str());
            let r = fixed3_string(&pl.ref_direction);
            push_text_row(v, "ref dir", r.as_str());
            push_row(
                v,
                Meta { key: String::from_str("world origin"), value: MetaValue::WorldOrigin(frame) },
            );
        },
        None => {},
    }
    assert(metas_view(final(v)@) =~= metas_view(old(v)@) + placement_rows(*p, frame));
}

// ---------- approvals ----------

pub open spec fn approver_who(ap: ApproverData) -> Seq<char> {
    match ap.person {
        Some(p) => person_name(p),
        None => opt_text(ap.organization),
    }
}

/// "approver" or "approver (role)" with who approved; none when nobody is
/// named.
pub open spec fn approver_rows(ap: ApproverData) -> Seq<MetaView> {
    let who = approver_who(ap);
    if who.len() == 0 {
        Seq::empty()
    } else {
        seq![
            text_row(
                if ap.role@.len() == 0 {
                    "approver"@
                } else {
                    "approver ("@ + ap.role@ + ")"@
                },
                who,
            ),
        ]
    }
}

pub open spec fn approvers_rows(s: Seq<ApproverData>) -> Seq<MetaView>
    decreases s.len(),
{
    if s.len() == 0 {
        Seq::empty()
    } else {
        approvers_rows(s.drop_last()) + approver_rows(s.last())
    }
}

pub open spec fn approval_status(a: ApprovalData) -> Seq<char> {
    if a.level@.len() == 0 {
        a.status@
    } else {
        a.status@ + " / "@ + a.level@
    }
}

/// The date row: none when there is no date or it renders empty.
pub open spec fn date_rows(a: ApprovalData) -> Seq<MetaView> {
    match a.date {
        Some(d) => nonempty_row("approved"@, approval_date_text(d)),
        None => Seq::empty(),
    }
}

pub open spec fn approval_rows(a: ApprovalData) -> Seq<MetaView> {
    seq![text_row("approval"@, approval_status(a))] + date_rows(a) + approvers_rows(a.approvers@)
}

pub open spec fn approvals_rows(s: Seq<ApprovalData>) -> Seq<MetaView>
    decreases s.len(),
{
    if s.len() == 0 {
        Seq::empty()
    } else {
        approvals_rows(s.drop_last()) + approval_rows(s.last())
    }
}

fn push_approver_rows(v: &mut Vec<Meta>, ap: &ApproverData)
    ensures
        metas_view(final(v)@) == metas_view(old(v)@) + approver_rows(*ap),
{
    let who = match &ap.person {
        Some(p) => person_name_string(p),
        None => String::from_str(opt_str(&ap.organization)),
    };
    if who.as_str().unicode_len() > 0 {
        let label = if ap.role.as_str().unicode_len() == 0 {
            String::from_str("approver")
        } else {
            let mut l = String::from_str("approver (");
            l.append(ap.role.as_str());
            l.append(")");
            l
        };
        push_text_row(v, label.as_str(), who.as_str());
    }
    assert(metas_view(final(v)@) =~= metas_view(old(v)@) + approver_rows(*ap));
}

fn push_approval_rows(v: &mut Vec<Meta>, a: &ApprovalData)
    ensures
        metas_view(final(v)@) == metas_view(old(v)@) + approval_rows(*a),
{
    let mut s = a.status.clone();
    if a.level.as_str().unicode_len() > 0 {
        s.append(" / ");
        s.append(a.level.as_str());
    }
    push_text_row(v, "approval", s.as_str());
    match &a.date {
        Some(d) => {
            let ds = approval_date_string(d);
            push_nonempty_row(v, "approved", ds.as_str());
        },
        None => {},
    }
    let ghost base = metas_view(v@);
    assert(base =~= metas_view(old(v)@) + seq![text_row("approval"@, approval_status(*a))]
        + date_rows(*a));
    let mut i: usize = 0;
    while i < a.approvers.len()
        invariant
            i <= a.approvers.len(),
            metas_view(v@) == base + approvers_rows(a.approvers@.take(i as int)),
        decreases a.approvers.len() - i,
    {
        push_approver_rows(v, &a.approvers[i]);
        assert(a.approvers@.take(i + 1).drop_last() =~= a.approvers@.take(i as int));
        i = i + 1;
        assert(metas_view(v@) =~= base + approvers_rows(a.approvers@.take(i as int)));
    }
    assert(a.approvers@.take(i as int) =~= a.approvers@);
    assert(metas_view(v@) =~= metas_view(old(v)@) + approval_rows(*a));
}

// ---------- documents, contributors, security ----------

/// "id — name [kind]", leaving out empty parts.
pub open spec fn document_text(d: DocumentData) -> Seq<char> {
    d.id@ + (if d.name@.len() > 0 {
        " — "@ + d.name@
    } else {
        Seq::empty()
    }) + (if d.kind@.len() > 0 {
        " ["@ + d.kind@ + "]"@
    } else {
        Seq::empty()
    })
}

pub open spec fn documents_rows(s: Seq<DocumentData>) -> Seq<MetaView>
    decreases s.len(),
{
    if s.len() == 0 {
        Seq::empty()
    } else {
        documents_rows(s.drop_last()).push(text_row("document"@, document_text(s.last())))
    }
}

fn document_string(d: &DocumentData) -> (r: String)
    ensures
        r@ == document_text(*d),
{
    let mut s = d.id.clone();
    let ghost a = s@;
    if d.name.as_str().unicode_len() > 0 {
        s.append(" — ");
        s.append(d.name.as_str());
    }
    let ghost b = s@;
    if d.kind.as_str().unicode_len() > 0 {
        s.append(" [");
        s.append(d.kind.as_str());
        s.append("]");
    }
    proof {
        reveal_strlit("");
    }
    assert(s@ =~= document_text(*d));
    s
}

/// A contributor: the role as the key ("contributor" without one), the name
/// as the value.
pub open spec fn contributor_row(c: ContributorData) -> MetaView {
    text_row(
        if c.role@.len() == 0 {
            "contributor"@
        } else {
            c.role@
        },
        person_name(c.person),
    )
}

pub open spec fn contributors_rows(s: Seq<ContributorData>) -> Seq<MetaView>
    decreases s.len(),
{
    if s.len() == 0 {
        Seq::empty()
    } else {
        contributors_rows(s.drop_last()).push(contributor_row(s.last()))
    }
}

/// "name (level)", then the purpose where there is one.
pub open spec fn security_rows(c: SecurityData) -> Seq<MetaView> {
    seq![text_row("security"@, c.name@ + " ("@ + c.level@ + ")"@)] + nonempty_row(
        "purpose"@,
        c.purpose@,
    )
}

pub open spec fn securities_rows(s: Seq<SecurityData>) -> Seq<MetaView>
    decreases s.len(),
{
    if s.len() == 0 {
        Seq::empty()
    } else {
        securities_rows(s.drop_last()) + security_rows(s.last())
    }
}

// ---------- versions ----------

/// The non-empty strings, in order.
pub open spec fn nonempty_only(s: Seq<Seq<char>>) -> Seq<Seq<char>>
    decreases s.len(),
{
    if s.len() == 0 {
        Seq::empty()
    } else if s.last().len() > 0 {
        nonempty_only(s.drop_last()).push(s.last())
    } else {
        nonempty_only(s.drop_last())
    }
}

/// The full version list, only when the product has more than one non-empty
/// version id (one is already shown as the node's version).
pub open spec fn versions_rows(p: Option<ProductData>) -> Seq<MetaView> {
    match p {
        Some(p) => {
            let vers = nonempty_only(strings_view(p.versions@));
            if vers.len() > 1 {
                seq![text_row("versions"@, joined(vers, ", "@))]
            } else {
                Seq::empty()
            }
        },
        None => Seq::empty(),
    }
}

fn push_versions_rows(v: &mut Vec<Meta>, p: &Option<ProductData>)
    ensures
        metas_view(final(v)@) == metas_view(old(v)@) + versions_rows(*p),
{
    match p {
        Some(prod) => {
            let ghost all = strings_view(prod.versions@);
            let mut vers: Vec<String> = Vec::new();
            let mut i: usize = 0;
            while i < prod.versions.len()
                invariant
                    i <= prod.versions.len(),
                    all == strings_view(prod.versions@),
                    strings_view(vers@) == nonempty_only(all.take(i as int)),
                decreases prod.versions.len() - i,
            {
                assert(all.take(i + 1).drop_last() =~= all.take(i as int));
                if prod.versions[i].as_str().unicode_len() > 0 {
                    vers.push(prod.versions[i].clone());
                }
                i = i + 1;
                assert(strings_view(vers@) =~= nonempty_only(all.take(i as int)));
            }
            assert(all.take(i as int) =~= all);
            if vers.len() > 1 {
                let j = join_strings(&vers, ", ");
                push_text_row(v, "versions", j.as_str());
            }
        },
        None => {},
    }
    assert(metas_view(final(v)@) =~= metas_view(old(v)@) + versions_rows(*p));
}

/// PLM metadata rows of a definition: approvals, documents, contributors,
/// security classifications, and the version list.
pub open spec fn plm_rows(d: DefData) -> Seq<MetaView> {
    approvals_rows(d.approvals@) + documents_rows(d.documents@) + contributors_rows(
        d.contributors@,
    ) + securities_rows(d.security@) + versions_rows(d.product)
}

pub fn push_plm_rows(v: &mut Vec<Meta>, d: &DefData)
    ensures
        metas_view(final(v)@) == metas_view(old(v)@) + plm_rows(*d),
{
    let ghost start = metas_view(v@);
    let mut i: usize = 0;
    while i < d.approvals.len()
        invariant
            i <= d.approvals.len(),
            metas_view(v@) == start + approvals_rows(d.approvals@.take(i as int)),
        decreases d.approvals.len() - i,
    {
        push_approval_rows(v, &d.approvals[i]);
        assert(d.approvals@.take(i + 1).drop_last() =~= d.approvals@.take(i as int));
        i = i + 1;
        assert(metas_view(v@) =~= start + approvals_rows(d.approvals@.take(i as int)));
    }
    assert(d.approvals@.take(i as int) =~= d.approvals@);
    let ghost s1 = metas_view(v@);
    let mut i: usize = 0;
    while i < d.documents.len()
        invariant
            i <= d.documents.len(),
            metas_view(v@) == s1 + documents_rows(d.documents@.take(i as int)),
        decreases d.documents.len() - i,
    {
        let t = document_string(&d.documents[i]);
        push_text_row(v, "document", t.as_str());
        assert(d.documents@.take(i + 1).drop_last() =~= d.documents@.take(i as int));
        i = i + 1;
        assert(metas_view(v@) =~= s1 + documents_rows(d.documents@.take(i as int)));
    }
    assert(d.documents@.take(i as int) =~= d.documents@);
    let ghost s2 = metas_view(v@);
    let mut i: usize = 0;
    while i < d.contributors.len()
        invariant
            i <= d.contributors.len(),
            metas_view(v@) == s2 + contributors_rows(d.contributors@.take(i as int)),
        decreases d.contributors.len() - i,
    {
        let c = &d.contributors[i];
        let name = person_name_string(&c.person);
        if c.role.as_str().unicode_len() == 0 {
            push_text_row(v, "contributor", name.as_str());
        } else {
            push_text_row(v, c.role.as_str(), name.as_str());
        }
        assert(d.contributors@.take(i + 1).drop_last() =~= d.contributors@.take(i as int));
        i = i + 1;
        assert(metas_view(v@) =~= s2 + contributors_rows(d.contributors@.take(i as int)));
    }
    assert(d.contributors@.take(i as int) =~= d.contributors@);
    let ghost s3 = metas_view(v@);
    let mut i: usize = 0;
    while i < d.security.len()
        invariant
            i <= d.security.len(),
            metas_view(v@) == s3 + securities_rows(d.security@.take(i as int)),
        decreases d.security.len() - i,
    {
        let c = &d.security[i];
        let mut t = c.name.clone();
        t.append(" (");
        t.append(c.level.as_str());
        t.append(")");
        push_text_row(v, "security", t.as_str());
        push_nonempty_row(v, "purpose", c.purpose.as_str());
        assert(d.security@.take(i + 1).drop_last() =~= d.security@.take(i as int));
        i = i + 1;
        assert(metas_view(v@) =~= s3 + securities_rows(d.security@.take(i as int)));
    }
    assert(d.security@.take(i as int) =~= d.security@);
    push_versions_rows(v, &d.product);
    assert(metas_view(v@) =~= metas_view(old(v)@) + plm_rows(*d));
}

} // verus!
