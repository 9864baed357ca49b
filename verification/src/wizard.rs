//! The selection wizard: a provider-agnostic progressive-narrowing state
//! machine over a candidate list. Each step offers the distinct values of
//! one field, then narrows the candidates to those matching the chosen
//! value; a step that empties the list fails with every previously chosen
//! value attached.

use vstd::prelude::*;

use crate::error::ResolveError;
use crate::image::{image_views, Image, ImageModel};
use crate::listutil::{
    distinct_sorted_asc, distinct_sorted_desc, lemma_str_set_is_seq_set, seq_set,
    sorted_strict_asc, sorted_strict_desc, str_set, views_of,
};
use crate::strutil::str_eq;

verus! {

/// The candidate fields a narrowing step may project.
#[derive(Debug, Clone, Copy, PartialEq, Eq, Structural)]
pub enum ImageField {
    Name,
    DistroVersion,
    Version,
    Arch,
    ImageType,
}

/// The projected field of one candidate.
pub open spec fn field_of(m: ImageModel, f: ImageField) -> Seq<char> {
    match f {
        ImageField::Name => m.name,
        ImageField::DistroVersion => m.distro_version,
        ImageField::Version => m.version,
        ImageField::Arch => m.arch,
        ImageField::ImageType => m.image_type,
    }
}

/// Project one field of a candidate.
pub fn field_value(img: &Image, f: ImageField) -> (r: &str)
    ensures
        r@ == field_of(img@, f),
{
    match f {
        ImageField::Name => img.name(),
        ImageField::DistroVersion => img.distro_version(),
        ImageField::Version => img.version(),
        ImageField::Arch => img.arch(),
        ImageField::ImageType => img.image_type(),
    }
}

/// The set of values one field takes over a candidate list.
pub open spec fn field_set(s: Seq<ImageModel>, f: ImageField) -> Set<Seq<char>> {
    Set::new(|v: Seq<char>| exists|i: int| 0 <= i < s.len() && field_of(#[trigger] s[i], f) == v)
}

/// The projected values of every candidate, in order.
fn field_values(images: &Vec<Image>, f: ImageField) -> (r: Vec<String>)
    ensures
        r@.len() == images@.len(),
        forall|i: int| 0 <= i < r@.len() ==> (#[trigger] r@[i])@ == field_of(images@[i]@, f),
{
    let mut out: Vec<String> = Vec::new();
    let mut i: usize = 0;
    while i < images.len()
        invariant
            i <= images@.len(),
            out@.len() == i,
            forall|k: int| 0 <= k < i ==> (#[trigger] out@[k])@ == field_of(images@[k]@, f),
        decreases images@.len() - i,
    {
        out.push(String::from_str(field_value(&images[i], f)));
        i += 1;
    }
    out
}

/// The values of the field over candidates and over the projection list
/// agree as sets.
proof fn lemma_field_values_set(vals: Seq<String>, images: Seq<Image>, f: ImageField)
    requires
        vals.len() == images.len(),
        forall|i: int| 0 <= i < vals.len() ==> (#[trigger] vals[i])@ == field_of(images[i]@, f),
    ensures
        str_set(vals) == field_set(image_views(images), f),
{
    assert forall|v: Seq<char>| str_set(vals).contains(v) implies field_set(
        image_views(images),
        f,
    ).contains(v) by {
        let i = choose|i: int| 0 <= i < vals.len() && (#[trigger] vals[i])@ == v;
        assert(field_of(image_views(images)[i], f) == v);
    }
    assert forall|v: Seq<char>| field_set(image_views(images), f).contains(v) implies str_set(
        vals,
    ).contains(v) by {
        let i = choose|i: int|
            0 <= i < image_views(images).len() && field_of(
                #[trigger] image_views(images)[i],
                f,
            ) == v;
        assert(vals[i]@ == v);
    }
    assert(str_set(vals) =~= field_set(image_views(images), f));
}

/// The distinct values of one field, descending — the order offered for
/// version-like fields.
pub fn options_desc(images: &Vec<Image>, f: ImageField) -> (r: Vec<String>)
    ensures
        sorted_strict_desc(views_of(r@)),
        seq_set(views_of(r@)) == field_set(image_views(images@), f),
{
    let vals = field_values(images, f);
    let r = distinct_sorted_desc(&vals);
    proof {
        lemma_field_values_set(vals@, images@, f);
        lemma_str_set_is_seq_set(r@);
    }
    r
}

/// The distinct values of one field, ascending — the order offered for
/// type-like fields.
pub fn options_asc(images: &Vec<Image>, f: ImageField) -> (r: Vec<String>)
    ensures
        sorted_strict_asc(views_of(r@)),
        seq_set(views_of(r@)) == field_set(image_views(images@), f),
{
    let vals = field_values(images, f);
    let r = distinct_sorted_asc(&vals);
    proof {
        lemma_field_values_set(vals@, images@, f);
        lemma_str_set_is_seq_set(r@);
    }
    r
}

/// The candidates whose field equals the chosen value, from `idx` on, in
/// order.
pub open spec fn filter_from(
    s: Seq<ImageModel>,
    f: ImageField,
    v: Seq<char>,
    idx: int,
) -> Seq<ImageModel>
    decreases s.len() - idx,
{
    if idx < 0 || idx >= s.len() {
        Seq::<ImageModel>::empty()
    } else {
        let head = if field_of(s[idx], f) == v {
            seq![s[idx]]
        } else {
            Seq::<ImageModel>::empty()
        };
        head + filter_from(s, f, v, idx + 1)
    }
}

/// The candidates whose field equals the chosen value, in order.
pub open spec fn filter_spec(s: Seq<ImageModel>, f: ImageField, v: Seq<char>) -> Seq<ImageModel> {
    filter_from(s, f, v, 0)
}

/// Keep the candidates whose field equals the chosen value.
pub fn filter_by_field(images: &Vec<Image>, f: ImageField, value: &str) -> (r: Vec<Image>)
    ensures
        image_views(r@) == filter_spec(image_views(images@), f, value@),
{
    let ghost orig = image_views(images@);
    let mut out: Vec<Image> = Vec::new();
    let mut i: usize = 0;
    proof {
        assert(image_views(out@) =~= Seq::<ImageModel>::empty());
    }
    while i < images.len()
        invariant
            i <= images@.len(),
            orig == image_views(images@),
            image_views(out@) + filter_from(orig, f, value@, i as int) == filter_spec(
                orig,
                f,
                value@,
            ),
        decreases images@.len() - i,
    {
        let ghost out_before = image_views(out@);
        proof {
            assert(orig[i as int] == images@[i as int]@);
        }
        if str_eq(field_value(&images[i], f), value) {
            let img = images[i].duplicate();
            out.push(img);
            proof {
                assert(image_views(out@) =~= out_before + seq![orig[i as int]]) by {
                    assert(forall|k: int|
                        0 <= k < out@.len() ==> #[trigger] image_views(out@)[k] == out@[k]@);
                    assert(forall|k: int|
                        0 <= k < out_before.len() ==> #[trigger] out_before[k] == out@[k]@);
                }
            }
        }
        proof {
            assert(image_views(out@) + filter_from(orig, f, value@, i + 1) =~= filter_spec(
                orig,
                f,
                value@,
            ));
        }
        i += 1;
    }
    proof {
        assert(filter_from(orig, f, value@, images@.len() as int) =~= Seq::<ImageModel>::empty());
        assert(image_views(out@) =~= filter_spec(orig, f, value@));
    }
    out
}

// ---------------------------------------------------------------------------
// Labels
// ---------------------------------------------------------------------------

/// The composite label that distinguishes one artifact among candidates
/// that agree on every narrowed field.
pub open spec fn artifact_label_of(m: ImageModel) -> Seq<char> {
    m.name + " | "@ + m.image_type + " | "@ + m.version + " | "@ + m.arch + " | "@ + m.url
}

/// The short label used by the Ubuntu picker.
pub open spec fn short_label_of(m: ImageModel) -> Seq<char> {
    m.name + " | "@ + m.arch + " | "@ + m.url
}

/// Build the composite artifact label of one candidate.
pub fn artifact_label(img: &Image) -> (r: String)
    ensures
        r@ == artifact_label_of(img@),
{
    let mut r = String::from_str(img.name());
    r.append(" | ");
    r.append(img.image_type());
    r.append(" | ");
    r.append(img.version());
    r.append(" | ");
    r.append(img.arch());
    r.append(" | ");
    r.append(img.url());
    proof {
        assert(r@ =~= artifact_label_of(img@));
    }
    r
}

/// Build the short label of one candidate.
pub fn format_image_label(img: &Image) -> (r: String)
    ensures
        r@ == short_label_of(img@),
{
    let mut r = String::from_str(img.name());
    r.append(" | ");
    r.append(img.arch());
    r.append(" | ");
    r.append(img.url());
    proof {
        assert(r@ =~= short_label_of(img@));
    }
    r
}

/// Index of the first candidate whose composite label is `label`, or -1.
pub open spec fn find_label_from(s: Seq<ImageModel>, label: Seq<char>, idx: int) -> int
    decreases s.len() - idx,
{
    if idx < 0 || idx >= s.len() {
        -1
    } else if artifact_label_of(s[idx]) == label {
        idx
    } else {
        find_label_from(s, label, idx + 1)
    }
}

/// The composite labels of every candidate, in order.
pub fn artifact_labels(images: &Vec<Image>) -> (r: Vec<String>)
    ensures
        r@.len() == images@.len(),
        forall|i: int|
            0 <= i < r@.len() ==> (#[trigger] r@[i])@ == artifact_label_of(images@[i]@),
{
    let mut out: Vec<String> = Vec::new();
    let mut i: usize = 0;
    while i < images.len()
        invariant
            i <= images@.len(),
            out@.len() == i,
            forall|k: int|
                0 <= k < i ==> (#[trigger] out@[k])@ == artifact_label_of(images@[k]@),
        decreases images@.len() - i,
    {
        out.push(artifact_label(&images[i]));
        i += 1;
    }
    out
}

/// Re-locate the candidate a chosen label names: the first candidate
/// whose composite label matches, exactly.
pub fn pick_by_label(images: &Vec<Image>, label: &str) -> (r: Option<Image>)
    ensures
        match r {
            Some(img) => {
                let i = find_label_from(image_views(images@), label@, 0);
                i >= 0 && img@ == image_views(images@)[i]
            },
            None => find_label_from(image_views(images@), label@, 0) == -1,
        },
{
    let ghost models = image_views(images@);
    let mut i: usize = 0;
    while i < images.len()
        invariant
            i <= images@.len(),
            models == image_views(images@),
            find_label_from(models, label@, 0) == find_label_from(models, label@, i as int),
        decreases images@.len() - i,
    {
        proof {
            assert(models[i as int] == images@[i as int]@);
        }
        let l = artifact_label(&images[i]);
        if str_eq(l.as_str(), label) {
            return Some(images[i].duplicate());
        }
        i += 1;
    }
    None
}

// ---------------------------------------------------------------------------
// The wizard itself
// ---------------------------------------------------------------------------

/// Ghost-level picture of a [`SelectionWizard`].
pub struct WizardModel {
    pub candidates: Seq<ImageModel>,
    pub chosen: Seq<Seq<char>>,
}

/// A candidate list under progressive narrowing, with every filter value
/// chosen so far.
#[derive(Debug)]
pub struct SelectionWizard {
    candidates: Vec<Image>,
    chosen: Vec<String>,
}

impl View for SelectionWizard {
    type V = WizardModel;

    closed spec fn view(&self) -> WizardModel {
        WizardModel { candidates: image_views(self.candidates@), chosen: views_of(self.chosen@) }
    }
}

impl SelectionWizard {
    /// Start a wizard over one provider's resolution result.
    pub fn new(candidates: Vec<Image>) -> (r: Self)
        ensures
            r@.candidates == image_views(candidates@),
            r@.chosen == Seq::<Seq<char>>::empty(),
    {
        let r = SelectionWizard { candidates, chosen: Vec::new() };
        proof {
            assert(views_of(r.chosen@) =~= Seq::<Seq<char>>::empty());
        }
        r
    }

    /// The surviving candidates.
    pub fn candidates(&self) -> (r: &Vec<Image>)
        ensures
            image_views(r@) == self@.candidates,
    {
        &self.candidates
    }

    /// Every filter value chosen so far, in order.
    pub fn chosen(&self) -> (r: &Vec<String>)
        ensures
            views_of(r@) == self@.chosen,
    {
        &self.chosen
    }

    /// The distinct values the given field takes over the surviving
    /// candidates, descending or ascending.
    pub fn options(&self, f: ImageField, descending: bool) -> (r: Vec<String>)
        ensures
            descending ==> sorted_strict_desc(views_of(r@)),
            !descending ==> sorted_strict_asc(views_of(r@)),
            seq_set(views_of(r@)) == field_set(self@.candidates, f),
    {
        if descending {
            options_desc(&self.candidates, f)
        } else {
            options_asc(&self.candidates, f)
        }
    }

    /// Narrow the candidates to those whose field equals the choice. A
    /// choice that empties the list fails with every chosen value,
    /// including this one, and leaves the wizard unchanged.
    pub fn narrow(&mut self, f: ImageField, choice: &str) -> (r: Result<(), ResolveError>)
        ensures
            match r {
                Ok(()) => {
                    &&& filter_spec(old(self)@.candidates, f, choice@).len() > 0
                    &&& final(self)@.candidates == filter_spec(old(self)@.candidates, f, choice@)
                    &&& final(self)@.chosen == old(self)@.chosen.push(choice@)
                },
                Err(e) => {
                    &&& filter_spec(old(self)@.candidates, f, choice@).len() == 0
                    &&& final(self)@ == old(self)@
                    &&& (e matches ResolveError::EmptyResult(fs) && views_of(fs@) == old(
                        self,
                    )@.chosen.push(choice@))
                },
            },
    {
        let filtered = filter_by_field(&self.candidates, f, choice);
        if filtered.len() == 0 {
            let mut fs: Vec<String> = Vec::new();
            let mut i: usize = 0;
            while i < self.chosen.len()
                invariant
                    i <= self.chosen@.len(),
                    fs@.len() == i,
                    forall|k: int| 0 <= k < i ==> (#[trigger] fs@[k])@ == self.chosen@[k]@,
                decreases self.chosen@.len() - i,
            {
                fs.push(self.chosen[i].clone());
                i += 1;
            }
            fs.push(String::from_str(choice));
            proof {
                assert(views_of(fs@) =~= views_of(self.chosen@).push(choice@));
            }
            return Err(ResolveError::EmptyResult(fs));
        }
        self.candidates = filtered;
        self.chosen.push(String::from_str(choice));
        proof {
            assert(views_of(self.chosen@) =~= views_of(old(self).chosen@).push(choice@));
        }
        Ok(())
    }

    /// The composite labels of the surviving candidates, in order.
    pub fn labels(&self) -> (r: Vec<String>)
        ensures
            r@.len() == self@.candidates.len(),
            forall|i: int|
                0 <= i < r@.len() ==> (#[trigger] r@[i])@ == artifact_label_of(
                    self@.candidates[i],
                ),
    {
        artifact_labels(&self.candidates)
    }

    /// The candidate a chosen label names: the first one whose composite
    /// label matches, exactly.
    pub fn finish_by_label(&self, label: &str) -> (r: Option<Image>)
        ensures
            match r {
                Some(img) => {
                    let i = find_label_from(self@.candidates, label@, 0);
                    i >= 0 && img@ == self@.candidates[i]
                },
                None => find_label_from(self@.candidates, label@, 0) == -1,
            },
    {
        pick_by_label(&self.candidates, label)
    }
}

} // verus!
