//! Tags: content-hashed records naming a subject URI and a label.
use crate::error::ModelError;
use crate::ids::{create_hash_id, hash_id_text, lemma_hash_id_digits, matches_id, same_id};
use crate::text::{
    chars_of, lemma_trimmed_fixed, lemma_trimmed_no_outer_space, lower_of, no_outer_space, lowercase, normalize_uri, string_of, take_chars, trim, trimmed, truncated,
    uri_normal_form,
};
use vstd::prelude::*;

verus! {

/// The most characters a label may have.
pub const MAX_TAG_LABEL_LENGTH: usize = 20;

/// A tag that a user places on a subject, stored under
/// `pubky:///pub/pubky.app/tags/<id>`, where the id is derived from
/// `"<uri>:<label>"`.
#[derive(Debug)]
pub struct PubkyAppTag {
    pub uri: String,
    pub label: String,
    pub created_at: i64,
}

/// The label as sanitizing leaves it: trimmed, lowercased, cut to
/// `MAX_TAG_LABEL_LENGTH` characters, and trimmed again where the cut left
/// whitespace at the end.
pub open spec fn sanitized_label(label: Seq<char>) -> Seq<char> {
    trimmed(truncated(lower_of(trimmed(label)), MAX_TAG_LABEL_LENGTH as nat))
}

/// The canonical text that a tag's identifier is derived from.
pub open spec fn tag_id_data(uri: Seq<char>, label: Seq<char>) -> Seq<char> {
    uri + seq![':'] + label
}

/// The identifier of a tag with these fields.
pub open spec fn tag_id(uri: Seq<char>, label: Seq<char>) -> Seq<char> {
    hash_id_text(tag_id_data(uri, label))
}

/// The checks on a sanitized tag against a claimed identifier.
pub open spec fn tag_check(uri: Seq<char>, label: Seq<char>, claim: Seq<char>) -> Result<
    (),
    ModelError,
> {
    if !same_id(tag_id(uri, label), claim) {
        Err(ModelError::IdentifierMismatch)
    } else if label.len() > MAX_TAG_LABEL_LENGTH {
        Err(ModelError::LabelTooLong)
    } else {
        Ok(())
    }
}

/// The fields of a tag after sanitizing: the URI's normal form and the
/// sanitized label; an error where the URI does not parse.
pub open spec fn tag_sanitized(uri: Seq<char>, label: Seq<char>) -> Result<
    (Seq<char>, Seq<char>),
    ModelError,
> {
    match uri_normal_form(uri) {
        Some(u) => Ok((u, sanitized_label(label))),
        None => Err(ModelError::MandatoryFieldInvalid),
    }
}

/// The outcome of taking in a tag under a claimed identifier: sanitize, then
/// check against the claim.
pub open spec fn tag_verdict(uri: Seq<char>, label: Seq<char>, claim: Seq<char>) -> Result<
    (Seq<char>, Seq<char>),
    ModelError,
> {
    match tag_sanitized(uri, label) {
        Err(e) => Err(e),
        Ok((u, l)) => match tag_check(u, l, claim) {
            Err(e) => Err(e),
            Ok(()) => Ok((u, l)),
        },
    }
}

/// The path of a tag with this identifier.
pub open spec fn tag_path(id: Seq<char>) -> Seq<char> {
    "pubky:///pub/pubky.app/tags/"@ + id
}

impl Default for PubkyAppTag {
    fn default() -> (r: Self)
        ensures
            r.uri@.len() == 0,
            r.label@.len() == 0,
            r.created_at == 0,
    {
        PubkyAppTag { uri: String::new(), label: String::new(), created_at: 0 }
    }
}

impl PubkyAppTag {
    /// A sanitized tag created now; the empty tag where the URI does not
    /// parse.
    pub fn new(uri: String, label: String) -> (r: Self)
        ensures
            match tag_sanitized(uri@, label@) {
                Ok((u, l)) => r.uri@ == u && r.label@ == l,
                Err(_) => r.uri@.len() == 0 && r.label@.len() == 0 && r.created_at == 0,
            },
    {
        let created_at = crate::ids::now_millis();
        let tag = PubkyAppTag { uri, label, created_at };
        match tag.sanitize() {
            Ok(t) => t,
            Err(_) => PubkyAppTag::default(),
        }
    }

    /// The canonical text of the identifier: `"<uri>:<label>"`.
    pub fn get_id_data(&self) -> (r: String)
        ensures
            r@ == tag_id_data(self.uri@, self.label@),
    {
        let mut d = self.uri.clone();
        d.append(":");
        d.append(self.label.as_str());
        proof {
            reveal_strlit(":");
            assert(d@ =~= tag_id_data(self.uri@, self.label@));
        }
        d
    }

    /// The content-hashed identifier; `created_at` takes no part in it.
    pub fn create_id(&self) -> (r: String)
        ensures
            r@ == tag_id(self.uri@, self.label@),
    {
        let data = self.get_id_data();
        create_hash_id(data.as_str())
    }

    /// `pubky:///pub/pubky.app/tags/<id>`.
    pub fn get_path(&self) -> (r: String)
        ensures
            r@ == tag_path(tag_id(self.uri@, self.label@)),
    {
        let id = self.create_id();
        let mut p = String::from_str("pubky:///pub/pubky.app/tags/");
        p.append(id.as_str());
        p
    }

    /// Normalizes the URI (it must parse) and the label.
    pub fn sanitize(self) -> (r: Result<Self, ModelError>)
        ensures
            match r {
                Ok(t) => tag_sanitized(self.uri@, self.label@) == Ok::<
                    (Seq<char>, Seq<char>),
                    ModelError,
                >((t.uri@, t.label@)) && t.created_at == self.created_at,
                Err(e) => tag_sanitized(self.uri@, self.label@) == Err::<
                    (Seq<char>, Seq<char>),
                    ModelError,
                >(e),
            },
    {
        let cs = chars_of(self.label.as_str());
        let t = string_of(&trim(&cs));
        let lower = lowercase(t.as_str());
        let label = string_of(
            &trim(&take_chars(&chars_of(lower.as_str()), MAX_TAG_LABEL_LENGTH)),
        );
        match normalize_uri(self.uri.as_str()) {
            Some(uri) => Ok(PubkyAppTag { uri, label, created_at: self.created_at }),
            None => Err(ModelError::MandatoryFieldInvalid),
        }
    }

    /// Checks the tag against a claimed identifier, then the label's length.
    pub fn validate(&self, id: &str) -> (r: Result<(), ModelError>)
        ensures
            r == tag_check(self.uri@, self.label@, id@),
    {
        let derived = self.create_id();
        if !matches_id(derived.as_str(), id) {
            return Err(ModelError::IdentifierMismatch);
        }
        if chars_of(self.label.as_str()).len() > MAX_TAG_LABEL_LENGTH {
            return Err(ModelError::LabelTooLong);
        }
        Ok(())
    }

    /// Takes in an untrusted tag under a claimed identifier: sanitizes it,
    /// then validates the result.
    pub fn from_untrusted(self, id: &str) -> (r: Result<Self, ModelError>)
        ensures
            match r {
                Ok(t) => tag_verdict(self.uri@, self.label@, id@) == Ok::<
                    (Seq<char>, Seq<char>),
                    ModelError,
                >((t.uri@, t.label@)) && t.created_at == self.created_at,
                Err(e) => tag_verdict(self.uri@, self.label@, id@) == Err::<
                    (Seq<char>, Seq<char>),
                    ModelError,
                >(e),
            },
    {
        let t = self.sanitize()?;
        t.validate(id)?;
        Ok(t)
    }
}

/// A tag's identifier is a function of its fields: two tags with the same
/// URI, label and creation time derive the same identifier text.
pub proof fn lemma_tag_id_deterministic(a: PubkyAppTag, b: PubkyAppTag)
    requires
        a.uri@ == b.uri@,
        a.label@ == b.label@,
        a.created_at == b.created_at,
    ensures
        tag_id(a.uri@, a.label@) == tag_id(b.uri@, b.label@),
{
}

/// Two tags with the same URI and label derive the same identifier,
/// whenever each was created.
pub proof fn lemma_tag_content_addressing(a: PubkyAppTag, b: PubkyAppTag)
    requires
        a.uri@ == b.uri@,
        a.label@ == b.label@,
    ensures
        tag_id(a.uri@, a.label@) == tag_id(b.uri@, b.label@),
{
}

/// A tag whose URI parses is refused with `IdentifierMismatch` under every
/// claim that does not name the identifier derived from its sanitized fields.
pub proof fn lemma_tag_tamper_rejection(uri: Seq<char>, label: Seq<char>, claim: Seq<char>)
    requires
        uri_normal_form(uri) is Some,
        !same_id(tag_id(uri_normal_form(uri)->0, sanitized_label(label)), claim),
    ensures
        tag_verdict(uri, label, claim) == Err::<(Seq<char>, Seq<char>), ModelError>(
            ModelError::IdentifierMismatch,
        ),
{
}

/// Sanitizing a sanitized tag changes nothing, where the URI's normal form
/// is its own normal form and the label's lowercase form is itself.
pub proof fn lemma_tag_sanitize_idempotent(
    uri: Seq<char>,
    label: Seq<char>,
    u1: Seq<char>,
    l1: Seq<char>,
)
    requires
        tag_sanitized(uri, label) == Ok::<(Seq<char>, Seq<char>), ModelError>((u1, l1)),
        uri_normal_form(u1) == Some(u1),
        lower_of(l1) == l1,
    ensures
        tag_sanitized(u1, l1) == Ok::<(Seq<char>, Seq<char>), ModelError>((u1, l1)),
{
    lemma_sanitized_label_shape(label);
    lemma_trimmed_fixed(l1);
    lemma_trimmed_fixed(truncated(l1, MAX_TAG_LABEL_LENGTH as nat));
}

/// A sanitized label has whitespace at neither end and fits the limit.
pub proof fn lemma_sanitized_label_shape(label: Seq<char>)
    ensures
        no_outer_space(sanitized_label(label)),
        sanitized_label(label).len() <= MAX_TAG_LABEL_LENGTH,
{
    lemma_trimmed_no_outer_space(truncated(lower_of(trimmed(label)), MAX_TAG_LABEL_LENGTH as nat));
}

/// A tag whose URI parses is accepted under the identifier derived from its
/// sanitized fields, in upper or lower case alike.
pub proof fn lemma_tag_accepts_own_id(uri: Seq<char>, label: Seq<char>)
    requires
        uri_normal_form(uri) is Some,
    ensures
        tag_verdict(uri, label, tag_id(uri_normal_form(uri)->0, sanitized_label(label)))
            == Ok::<(Seq<char>, Seq<char>), ModelError>(
            (uri_normal_form(uri)->0, sanitized_label(label)),
        ),
{
    let u = uri_normal_form(uri)->0;
    let l = sanitized_label(label);
    lemma_sanitized_label_shape(label);
    lemma_hash_id_digits(tag_id_data(u, l));
}

} // verus!
