//! Posts: time-ordered records holding user content, stored under
//! `pubky:///pub/pubky.app/posts/<id>`, where the id is the base-32 text of
//! the creation instant.
use crate::encoding::decoded_timestamp;
use crate::encoding::decode_timestamp;
use crate::error::ModelError;
use crate::ids::IdClock;
use crate::text::{
    chars_of, lemma_trimmed_fixed, lemma_trimmed_no_outer_space, no_outer_space, unicode_whitespace, normalize_uri, same_text, string_of,
    take_chars, trim, trimmed, truncated, uri_normal_form,
};
use vstd::prelude::*;

verus! {

/// The most characters that short content (and every kind but `Long`) may have.
pub const MAX_SHORT_CONTENT_LENGTH: usize = 1000;

/// The most characters that long content may have.
pub const MAX_LONG_CONTENT_LENGTH: usize = 50000;

/// The kind of a post, used to display it.
#[derive(Debug, Clone, Copy, PartialEq, Eq, Structural)]
pub enum PubkyAppPostKind {
    Short,
    Long,
    Image,
    Video,
    Link,
    File,
}

/// The most characters that content of a kind may have.
pub open spec fn max_content_len(kind: PubkyAppPostKind) -> nat {
    match kind {
        PubkyAppPostKind::Long => MAX_LONG_CONTENT_LENGTH as nat,
        _ => MAX_SHORT_CONTENT_LENGTH as nat,
    }
}

/// The lowercase name of a kind.
pub open spec fn kind_name(kind: PubkyAppPostKind) -> Seq<char> {
    match kind {
        PubkyAppPostKind::Short => "short"@,
        PubkyAppPostKind::Long => "long"@,
        PubkyAppPostKind::Image => "image"@,
        PubkyAppPostKind::Video => "video"@,
        PubkyAppPostKind::Link => "link"@,
        PubkyAppPostKind::File => "file"@,
    }
}

impl PubkyAppPostKind {
    /// The lowercase name of the kind.
    pub fn as_str(&self) -> (r: &'static str)
        ensures
            r@ == kind_name(*self),
    {
        match self {
            PubkyAppPostKind::Short => "short",
            PubkyAppPostKind::Long => "long",
            PubkyAppPostKind::Image => "image",
            PubkyAppPostKind::Video => "video",
            PubkyAppPostKind::Link => "link",
            PubkyAppPostKind::File => "file",
        }
    }

    /// The most characters that content of this kind may have.
    pub fn max_content_length(&self) -> (r: usize)
        ensures
            r as nat == max_content_len(*self),
    {
        match self {
            PubkyAppPostKind::Long => MAX_LONG_CONTENT_LENGTH,
            _ => MAX_SHORT_CONTENT_LENGTH,
        }
    }
}

impl Default for PubkyAppPostKind {
    fn default() -> (r: Self)
        ensures
            r == PubkyAppPostKind::Short,
    {
        PubkyAppPostKind::Short
    }
}

/// What a post reposts or quotes.
#[derive(Debug, Clone)]
pub struct PubkyAppPostEmbed {
    pub kind: PubkyAppPostKind,
    pub uri: String,
}

/// A post: its content, kind, the post it replies to, what it embeds, and
/// its attachments.
#[derive(Debug, Clone)]
pub struct PubkyAppPost {
    pub content: String,
    pub kind: PubkyAppPostKind,
    pub parent: Option<String>,
    pub embed: Option<PubkyAppPostEmbed>,
    pub attachments: Option<Vec<String>>,
}

/// A post as texts.
pub struct PostView {
    pub content: Seq<char>,
    pub kind: PubkyAppPostKind,
    pub parent: Option<Seq<char>>,
    pub embed: Option<(PubkyAppPostKind, Seq<char>)>,
    pub attachments: Option<Seq<Seq<char>>>,
}

/// The texts of a sequence of strings.
pub open spec fn texts(v: Seq<String>) -> Seq<Seq<char>> {
    v.map_values(|s: String| s@)
}

impl View for PubkyAppPost {
    type V = PostView;

    open spec fn view(&self) -> PostView {
        PostView {
            content: self.content@,
            kind: self.kind,
            parent: match self.parent {
                Some(p) => Some(p@),
                None => None,
            },
            embed: match self.embed {
                Some(e) => Some((e.kind, e.uri@)),
                None => None,
            },
            attachments: match self.attachments {
                Some(v) => Some(texts(v@)),
                None => None,
            },
        }
    }
}

/// Content with the reserved deletion marker replaced by a placeholder.
pub open spec fn without_marker(s: Seq<char>) -> Seq<char> {
    if s == "[DELETED]"@ {
        "empty"@
    } else {
        s
    }
}

/// Content as sanitizing leaves it: trimmed, cut to the kind's number of
/// characters, trimmed again where the cut left whitespace at the end, and
/// the deletion marker replaced.
pub open spec fn sanitized_content(c: Seq<char>, kind: PubkyAppPostKind) -> Seq<char> {
    without_marker(trimmed(truncated(trimmed(c), max_content_len(kind))))
}

/// An optional URI as sanitizing leaves it: its normal form, or nothing
/// where it does not parse.
pub open spec fn sanitized_opt_uri(o: Option<Seq<char>>) -> Option<Seq<char>> {
    match o {
        Some(u) => uri_normal_form(u),
        None => None,
    }
}

/// URIs as sanitizing leaves them: each in its normal form, in order, those
/// that do not parse left out.
pub open spec fn sanitized_uris(s: Seq<Seq<char>>) -> Seq<Seq<char>>
    decreases s.len(),
{
    if s.len() == 0 {
        Seq::empty()
    } else {
        let rest = sanitized_uris(s.drop_last());
        match uri_normal_form(s.last()) {
            Some(u) => rest.push(u),
            None => rest,
        }
    }
}

/// A post as sanitizing leaves it.
pub open spec fn sanitized_post(p: PostView) -> PostView {
    PostView {
        content: sanitized_content(p.content, p.kind),
        kind: p.kind,
        parent: sanitized_opt_uri(p.parent),
        embed: match p.embed {
            Some((k, u)) => match uri_normal_form(u) {
                Some(n) => Some((k, n)),
                None => None,
            },
            None => None,
        },
        attachments: match p.attachments {
            Some(a) => Some(sanitized_uris(a)),
            None => None,
        },
    }
}

/// The checks on a sanitized post against a claimed identifier.
pub open spec fn post_check(content: Seq<char>, kind: PubkyAppPostKind, claim: Seq<char>) -> Result<
    (),
    ModelError,
> {
    if decoded_timestamp(claim) is None {
        Err(ModelError::InvalidEncoding)
    } else if content.len() > max_content_len(kind) {
        Err(ModelError::ContentTooLong)
    } else {
        Ok(())
    }
}

/// The path of a post with this identifier.
pub open spec fn post_path(id: Seq<char>) -> Seq<char> {
    "pubky:///pub/pubky.app/posts/"@ + id
}

fn sanitize_content(content: &String, kind: PubkyAppPostKind) -> (r: String)
    ensures
        r@ == sanitized_content(content@, kind),
{
    let cut = take_chars(&trim(&chars_of(content.as_str())), kind.max_content_length());
    let mut t = trim(&cut);
    if same_text(&t, &chars_of("[DELETED]")) {
        t = chars_of("empty");
    }
    string_of(&t)
}

fn sanitize_uris(a: &Vec<String>) -> (r: Vec<String>)
    ensures
        texts(r@) == sanitized_uris(texts(a@)),
{
    let mut out: Vec<String> = Vec::new();
    let mut i: usize = 0;
    while i < a.len()
        invariant
            i <= a@.len(),
            texts(out@) == sanitized_uris(texts(a@).subrange(0, i as int)),
        decreases a@.len() - i,
    {
        let ghost before = out@;
        proof {
            assert(texts(a@).subrange(0, i + 1).drop_last() =~= texts(a@).subrange(0, i as int));
        }
        match normalize_uri(a[i].as_str()) {
            Some(u) => {
                out.push(u);
                proof {
                    assert(texts(out@) =~= texts(before).push(u@));
                }
            },
            None => {},
        }
        i = i + 1;
    }
    proof {
        assert(texts(a@).subrange(0, a@.len() as int) =~= texts(a@));
    }
    out
}

impl Default for PubkyAppPostEmbed {
    fn default() -> (r: Self)
        ensures
            r.kind == PubkyAppPostKind::Short,
            r.uri@.len() == 0,
    {
        PubkyAppPostEmbed { kind: PubkyAppPostKind::Short, uri: String::new() }
    }
}

impl Default for PubkyAppPost {
    fn default() -> (r: Self)
        ensures
            r@.content.len() == 0,
            r.kind == PubkyAppPostKind::Short,
            r.parent is None,
            r.embed is None,
            r.attachments is None,
    {
        PubkyAppPost {
            content: String::new(),
            kind: PubkyAppPostKind::Short,
            parent: None,
            embed: None,
            attachments: None,
        }
    }
}

impl PubkyAppPost {
    /// A fresh time-ordered identifier for a post, from the clock.
    pub fn create_id(clock: &mut IdClock) -> (r: Option<String>)
        ensures
            r is Some <==> old(clock).last_instant() < u64::MAX,
            match r {
                Some(s) => final(clock).last_instant() > old(clock).last_instant()
                    && s@ == crate::encoding::timestamp_text(final(clock).last_instant()),
                None => final(clock).last_instant() == old(clock).last_instant(),
            },
    {
        clock.create_id()
    }

    /// `pubky:///pub/pubky.app/posts/<id>`; `None` where the identifier is
    /// not a timestamp identifier.
    pub fn get_path(id: &str) -> (r: Option<String>)
        ensures
            match r {
                Some(p) => decoded_timestamp(id@) is Some && p@ == post_path(id@),
                None => decoded_timestamp(id@) is None,
            },
    {
        match decode_timestamp(id) {
            Some(_) => {
                let mut p = String::from_str("pubky:///pub/pubky.app/posts/");
                p.append(id);
                Some(p)
            },
            None => None,
        }
    }

    /// Trims the content, cuts it to its kind's length, trims what the cut
    /// left, replaces the deletion marker, and keeps each URI in its normal
    /// form; a URI that does not parse is dropped.
    pub fn sanitize(self) -> (r: Self)
        ensures
            r@ == sanitized_post(self@),
    {
        let content = sanitize_content(&self.content, self.kind);
        let parent = match &self.parent {
            Some(p) => normalize_uri(p.as_str()),
            None => None,
        };
        let embed = match &self.embed {
            Some(e) => match normalize_uri(e.uri.as_str()) {
                Some(u) => Some(PubkyAppPostEmbed { kind: e.kind, uri: u }),
                None => None,
            },
            None => None,
        };
        let attachments = match &self.attachments {
            Some(a) => Some(sanitize_uris(a)),
            None => None,
        };
        PubkyAppPost { content, kind: self.kind, parent, embed, attachments }
    }

    /// Checks the identifier's encoding, then the content's length.
    pub fn validate(&self, id: &str) -> (r: Result<(), ModelError>)
        ensures
            r == post_check(self.content@, self.kind, id@),
    {
        if decode_timestamp(id).is_none() {
            return Err(ModelError::InvalidEncoding);
        }
        if chars_of(self.content.as_str()).len() > self.kind.max_content_length() {
            return Err(ModelError::ContentTooLong);
        }
        Ok(())
    }

    /// Takes in an untrusted post under a claimed identifier: sanitizes it,
    /// then validates the result.
    pub fn from_untrusted(self, id: &str) -> (r: Result<Self, ModelError>)
        ensures
            match r {
                Ok(p) => p@ == sanitized_post(self@) && post_check(p.content@, p.kind, id@) is Ok,
                Err(e) => post_check(sanitized_post(self@).content, self.kind, id@) == Err::<
                    (),
                    ModelError,
                >(e),
            },
    {
        let p = self.sanitize();
        match p.validate(id) {
            Ok(()) => Ok(p),
            Err(e) => Err(e),
        }
    }
}

/// Content longer than its kind allows is cut to exactly the kind's number
/// of characters, counted as characters whatever their encoded width, where
/// the last character kept is not whitespace.
pub proof fn lemma_truncation_by_chars(c: Seq<char>, kind: PubkyAppPostKind)
    requires
        trimmed(c).len() > max_content_len(kind),
        !unicode_whitespace(trimmed(c)[max_content_len(kind) - 1]),
    ensures
        sanitized_content(c, kind).len() == max_content_len(kind),
        sanitized_content(c, kind) == trimmed(c).subrange(0, max_content_len(kind) as int),
{
    reveal_strlit("[DELETED]");
    let n = max_content_len(kind) as int;
    let t = trimmed(c);
    lemma_trimmed_no_outer_space(c);
    let cut = t.subrange(0, n);
    assert(cut[0] == t[0]);
    lemma_trimmed_fixed(cut);
}

/// Every URI of the sequence is its own normal form.
pub open spec fn all_normal(s: Seq<Seq<char>>) -> bool {
    forall|i: int| 0 <= i < s.len() ==> uri_normal_form(#[trigger] s[i]) == Some(s[i])
}

proof fn lemma_sanitized_uris_fixed(s: Seq<Seq<char>>)
    requires
        all_normal(s),
    ensures
        sanitized_uris(s) == s,
    decreases s.len(),
{
    if s.len() > 0 {
        assert(all_normal(s.drop_last())) by {
            assert forall|i: int| 0 <= i < s.drop_last().len() implies uri_normal_form(
                #[trigger] s.drop_last()[i],
            ) == Some(s.drop_last()[i]) by {
                assert(s.drop_last()[i] == s[i]);
            }
        }
        lemma_sanitized_uris_fixed(s.drop_last());
        assert(uri_normal_form(s[s.len() - 1]) == Some(s[s.len() - 1]));
        assert(s.drop_last().push(s.last()) =~= s);
    }
}

/// Sanitizing a sanitized post changes nothing, where each URI kept is its
/// own normal form.
pub proof fn lemma_post_sanitize_idempotent(p: PostView)
    requires
        sanitized_post(p).parent matches Some(u) ==> uri_normal_form(u) == Some(u),
        sanitized_post(p).embed matches Some(e) ==> uri_normal_form(e.1) == Some(e.1),
        sanitized_post(p).attachments matches Some(a) ==> all_normal(a),
    ensures
        sanitized_post(sanitized_post(p)) == sanitized_post(p),
{
    reveal_strlit("[DELETED]");
    reveal_strlit("empty");
    let q = sanitized_post(p);
    let n = max_content_len(p.kind);
    let y = trimmed(truncated(trimmed(p.content), n));
    lemma_trimmed_no_outer_space(truncated(trimmed(p.content), n));
    let e = "empty"@;
    assert(e =~= seq!['e', 'm', 'p', 't', 'y']);
    assert(no_outer_space(e));
    let c1 = q.content;
    assert(no_outer_space(c1));
    assert(c1.len() <= n);
    lemma_trimmed_fixed(c1);
    assert(truncated(c1, n) == c1);
    assert(c1 != "[DELETED]"@) by {
        if y == "[DELETED]"@ {
            assert(c1.len() == 5);
        }
    }
    assert(sanitized_content(c1, p.kind) == c1);
    if let Some(a) = q.attachments {
        lemma_sanitized_uris_fixed(a);
    }
    assert(sanitized_post(q).embed == q.embed);
    assert(sanitized_post(q).parent == q.parent);
}

} // verus!
