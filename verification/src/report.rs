//! What validation found in a message.
use crate::text::{copy_of, texts};
use std::collections::HashMap;
use vstd::prelude::*;

verus! {

broadcast use {vstd::std_specs::hash::group_hash_axioms, vstd::seq_lib::group_seq_properties};

/// The errors of a message, all of them in the order found, and again by tag.
#[derive(Debug)]
pub struct ValidationReport {
    pub errors: Vec<String>,
    pub tag_errors: HashMap<u32, Vec<String>>,
}

/// The mathematical content of a `ValidationReport`.
#[verifier::ext_equal]
pub struct ReportView {
    pub errors: Seq<Seq<char>>,
    pub tag_errors: Map<u32, Seq<Seq<char>>>,
}

/// One error, and the tag that it is about, if it is listed under one.
pub struct Finding {
    pub tag: Option<u32>,
    pub text: Seq<char>,
}

pub open spec fn text_lists(map: Map<u32, Vec<String>>) -> Map<u32, Seq<Seq<char>>> {
    map.map_values(|v: Vec<String>| texts(v@))
}

impl View for ValidationReport {
    type V = ReportView;

    open spec fn view(&self) -> ReportView {
        ReportView { errors: texts(self.errors@), tag_errors: text_lists(self.tag_errors@) }
    }
}

impl ReportView {
    pub open spec fn empty() -> ReportView {
        ReportView { errors: seq![], tag_errors: Map::empty() }
    }

    /// What is listed under `tag`.
    pub open spec fn listed(self, tag: u32) -> Seq<Seq<char>> {
        if self.tag_errors.contains_key(tag) {
            self.tag_errors[tag]
        } else {
            seq![]
        }
    }

    pub open spec fn noted(self, finding: Finding) -> ReportView {
        ReportView {
            errors: self.errors.push(finding.text),
            tag_errors: match finding.tag {
                Some(tag) => self.tag_errors.insert(tag, self.listed(tag).push(finding.text)),
                None => self.tag_errors,
            },
        }
    }

    /// The report with the findings added, one after the other.
    pub open spec fn with(self, findings: Seq<Finding>) -> ReportView
        decreases findings.len(),
    {
        if findings.len() == 0 {
            self
        } else {
            self.with(findings.drop_last()).noted(findings.last())
        }
    }

    pub proof fn lemma_with_add(self, a: Seq<Finding>, b: Seq<Finding>)
        ensures
            self.with(a + b) == self.with(a).with(b),
        decreases b.len(),
    {
        if b.len() == 0 {
            assert(a + b =~= a);
        } else {
            assert((a + b).drop_last() =~= a + b.drop_last());
            assert((a + b).last() == b.last());
            self.lemma_with_add(a, b.drop_last());
        }
    }

    pub proof fn lemma_with_one(self, finding: Finding)
        ensures
            self.with(seq![finding]) == self.noted(finding),
    {
        assert(seq![finding].drop_last() =~= seq![]);
        assert(self.with(seq![]) == self);
    }
}

/// The report that lists exactly the findings.
pub open spec fn report_of(findings: Seq<Finding>) -> ReportView {
    ReportView::empty().with(findings)
}

/// A report lists the text of every finding, in order, and under each tag those of the
/// findings about that tag, in the same order.
pub proof fn law_report_lists_every_finding(findings: Seq<Finding>, tag: u32)
    ensures
        report_of(findings).errors == findings.map_values(|f: Finding| f.text),
        report_of(findings).listed(tag) == findings.filter(
            |f: Finding| f.tag == Some(tag),
        ).map_values(|f: Finding| f.text),
        report_of(findings).tag_errors.contains_key(tag) <==> exists|i: int|
            0 <= i < findings.len() && (#[trigger] findings[i]).tag == Some(tag),
    decreases findings.len(),
{
    reveal(Seq::filter);
    if findings.len() > 0 {
        let before = findings.drop_last();
        law_report_lists_every_finding(before, tag);
        assert(findings.map_values(|f: Finding| f.text) =~= before.map_values(
            |f: Finding| f.text,
        ).push(findings.last().text));
        let about = |f: Finding| f.tag == Some(tag);
        if findings.last().tag == Some(tag) {
            assert(findings.filter(about) =~= before.filter(about).push(findings.last()));
            assert(findings.filter(about).map_values(|f: Finding| f.text) =~= before.filter(
                about,
            ).map_values(|f: Finding| f.text).push(findings.last().text));
            assert(findings[findings.len() - 1].tag == Some(tag));
        } else {
            assert(findings.filter(about) =~= before.filter(about));
            assert forall|i: int|
                0 <= i < findings.len() && (#[trigger] findings[i]).tag == Some(
                    tag,
                ) implies exists|j: int|
                0 <= j < before.len() && (#[trigger] before[j]).tag == Some(tag) by {
                assert(before[i].tag == Some(tag));
            }
        }
        assert forall|i: int| 0 <= i < before.len() && (#[trigger] before[i]).tag == Some(
            tag,
        ) implies exists|j: int|
            0 <= j < findings.len() && (#[trigger] findings[j]).tag == Some(tag) by {
            assert(findings[i].tag == Some(tag));
        }
    } else {
        assert(findings.map_values(|f: Finding| f.text) =~= seq![]);
        assert(findings.filter(|f: Finding| f.tag == Some(tag)).map_values(|f: Finding| f.text)
            =~= seq![]);
    }
}

impl ValidationReport {
    pub fn new() -> (report: ValidationReport)
        ensures
            report@ == ReportView::empty(),
    {
        let report = ValidationReport { errors: Vec::new(), tag_errors: HashMap::new() };
        assert(report@ =~= ReportView::empty());
        report
    }

    /// Whether nothing was found.
    pub fn is_clean(&self) -> (clean: bool)
        ensures
            clean == (self@.errors.len() == 0),
    {
        self.errors.len() == 0
    }

    /// Adds an error, and lists it under `tag` if there is one.
    pub(crate) fn note(&mut self, tag: Option<u32>, text: String)
        ensures
            final(self)@ == old(self)@.noted(Finding { tag, text: text@ }),
    {
        let ghost before = *self;
        if let Some(tag) = tag {
            let mut list: Vec<String> = match self.tag_errors.remove(&tag) {
                Some(list) => list,
                None => Vec::new(),
            };
            assert(texts(list@) =~= before@.listed(tag));
            list.push(copy_of(text.as_str()));
            assert(texts(list@) =~= before@.listed(tag).push(text@));
            self.tag_errors.insert(tag, list);
            assert(text_lists(self.tag_errors@) =~= before@.tag_errors.insert(
                tag,
                before@.listed(tag).push(text@),
            ));
        }
        self.errors.push(text);
        assert(texts(self.errors@) =~= texts(before.errors@).push(text@));
    }
}

impl Default for ValidationReport {
    fn default() -> (report: ValidationReport)
        ensures
            report@ == ReportView::empty(),
    {
        ValidationReport::new()
    }
}

} // verus!
