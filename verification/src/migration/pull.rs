//! The pull of the target image into the composefs repository.
//!
//! A tag may move between two reads of it. It is refreshed once and pinned to
//! the manifest that it named then, so that the root filesystem, `/etc` and the
//! boot files come from one image.

use vstd::prelude::*;

use crate::text::chars::{chars_of, is_white, white};
use crate::text::numbers::{all_digits, is_number};
use crate::text::pieces::{
    fields, fields_of, is_word, lemma_fields_are_words, lines, lines_of, trim, trimmed,
};
use crate::text::quote::{quoted, quoted_text};
use crate::text::search::{
    after, all_hex, begins, contains, cut, find_char, head, holds, is_all_hex, last_index,
    lemma_first_index, lemma_first_index_unique, lemma_last_index, occurs_at, rfind_char, same,
    split_once, starts_with, strip_prefix, up_to,
};

verus! {

/// The target image by the manifest that was pulled.
#[derive(Debug, Clone, PartialEq, Eq)]
pub struct PulledImage {
    /// The reference that names the manifest, for every later read.
    pub image_reference: String,
    pub manifest_digest: String,
    pub config_digest: String,
}

/// What a [`PulledImage`] holds.
#[verifier::ext_equal]
pub struct PulledImageView {
    pub image_reference: Seq<char>,
    pub manifest_digest: Seq<char>,
    pub config_digest: Seq<char>,
}

impl DeepView for PulledImage {
    type V = PulledImageView;

    open spec fn deep_view(&self) -> PulledImageView {
        PulledImageView {
            image_reference: self.image_reference@,
            manifest_digest: self.manifest_digest@,
            config_digest: self.config_digest@,
        }
    }
}

/// The target image by the manifest that its tag named.
#[derive(Debug, Clone, PartialEq, Eq)]
pub struct ResolvedTargetImage {
    pub image_reference: String,
    pub manifest_digest: String,
}

/// Whether the digest is one by SHA-256, in full.
pub open spec fn is_sha256(digest: Seq<char>) -> bool {
    match after(digest, "sha256:"@) {
        Some(hex) => hex.len() == 64 && all_hex(hex),
        None => false,
    }
}

/// Whether the digest is one by SHA-256, in full.
pub fn is_sha256_digest(digest: &str) -> (r: bool)
    ensures
        r == is_sha256(digest@),
{
    match strip_prefix(digest, "sha256:") {
        Some(hex) => hex.as_str().unicode_len() == 64 && is_all_hex(hex.as_str()),
        None => false,
    }
}

/// The image without the transport that podman does not need.
pub open spec fn without_docker(image: Seq<char>) -> Seq<char> {
    match after(image, "docker://"@) {
        Some(r) => r,
        None => image,
    }
}

/// The image without the transport that podman does not need.
pub fn podman_image(target_image: &str) -> (r: String)
    ensures
        r@ == without_docker(target_image@),
{
    match strip_prefix(target_image, "docker://") {
        Some(r) => r,
        None => target_image.to_owned(),
    }
}

/// The name without its tag: what stands behind the last colon is a tag where
/// no slash follows it, and a port otherwise.
pub open spec fn without_tag(name: Seq<char>) -> Seq<char> {
    let colon = last_index(name, ':');
    if colon >= 0 && colon > last_index(name, '/') {
        name.take(colon)
    } else {
        name
    }
}

/// The transports, beside registries, that an image reference may begin with.
pub open spec fn local_transports() -> Seq<Seq<char>> {
    seq![
        "containers-storage:"@,
        "dir:"@,
        "docker-archive:"@,
        "docker-daemon:"@,
        "oci:"@,
        "oci-archive:"@,
        "ostree:"@,
        "sif:"@,
    ]
}

/// Whether the text begins with one of the prefixes.
pub open spec fn begins_with_any(s: Seq<char>, prefixes: Seq<Seq<char>>) -> bool {
    exists|i: int| 0 <= i < prefixes.len() && begins(s, #[trigger] prefixes[i])
}

/// Whether what stands behind a colon is a port: digits up to a slash or the
/// end.
pub open spec fn is_port(rest: Seq<char>) -> bool {
    match split_once(rest, '/') {
        Some((port, _)) => is_number(port),
        None => is_number(rest),
    }
}

/// Whether the text is made like the name of a transport: of small letters and
/// hyphens.
pub open spec fn is_transport_name(t: Seq<char>) -> bool {
    t.len() > 0 && forall|i: int|
        0 <= i < t.len() ==> ('a' <= #[trigger] t[i] <= 'z' || t[i] == '-')
}

/// Whether a name, without tag and digest, has a transport before it: a local
/// one, or another where no port follows.
pub open spec fn has_transport(name: Seq<char>) -> bool {
    begins_with_any(name, local_transports()) || match split_once(name, ':') {
        None => false,
        Some((t, rest)) => is_transport_name(t) && !is_port(rest),
    }
}

/// The image pinned to the manifest, or why it cannot be. A transport other
/// than `docker://` is refused. Behind that one, and where `registry` says that
/// it was there before, the name is one in a registry whatever it looks like.
pub open spec fn pinned_in(image: Seq<char>, registry: bool, digest: Seq<char>) -> Result<
    Seq<char>,
    Seq<char>,
> {
    let bare = without_docker(image);
    let name = without_tag(up_to(bare, '@'));
    if !is_sha256(digest) {
        Err("invalid OCI manifest digest "@ + quoted_text(digest))
    } else if holds(bare, "://"@) || !registry && !begins(image, "docker://"@) && has_transport(
        name,
    ) {
        Err("unsupported image transport in "@ + quoted_text(bare))
    } else if name.len() == 0 {
        Err("invalid image reference "@ + quoted_text(bare))
    } else {
        Ok(name + "@"@ + digest)
    }
}

/// The image pinned to the manifest, or why it cannot be.
pub open spec fn pinned(image: Seq<char>, digest: Seq<char>) -> Result<Seq<char>, Seq<char>> {
    pinned_in(image, false, digest)
}

/// The name without its tag.
fn drop_tag(name: &str) -> (r: String)
    ensures
        r@ == without_tag(name@),
{
    proof {
        lemma_last_index(name@, ':');
        lemma_last_index(name@, '/');
    }
    match rfind_char(name, ':') {
        Some(colon) => {
            let tagged: bool = match rfind_char(name, '/') {
                Some(slash) => colon > slash,
                None => true,
            };
            if tagged {
                head(name, colon)
            } else {
                name.to_owned()
            }
        },
        None => name.to_owned(),
    }
}

/// Whether the text begins with one of the local transports.
fn names_local_transport(s: &str) -> (r: bool)
    ensures
        r == begins_with_any(s@, local_transports()),
{
    let prefixes: [&str; 8] = [
        "containers-storage:",
        "dir:",
        "docker-archive:",
        "docker-daemon:",
        "oci:",
        "oci-archive:",
        "ostree:",
        "sif:",
    ];
    let ghost all = local_transports();
    let mut i: usize = 0;
    while i < 8
        invariant
            i <= 8,
            all == local_transports(),
            all.len() == 8,
            forall|k: int| 0 <= k < 8 ==> (#[trigger] prefixes@[k])@ == all[k],
            forall|k: int| 0 <= k < i ==> !begins(s@, #[trigger] all[k]),
        decreases 8 - i,
    {
        assert(prefixes@[i as int]@ == all[i as int]);
        if starts_with(s, prefixes[i]) {
            return true;
        }
        i = i + 1;
    }
    false
}

/// Whether what stands behind a colon is a port.
fn port(rest: &str) -> (r: bool)
    ensures
        r == is_port(rest@),
{
    match cut(rest, '/') {
        Some((digits, _)) => all_digits(digits.as_str()),
        None => all_digits(rest),
    }
}

/// Whether the text is made like the name of a transport.
fn transport_name(t: &str) -> (r: bool)
    ensures
        r == is_transport_name(t@),
{
    let a: Vec<char> = chars_of(t);
    if a.len() == 0 {
        return false;
    }
    let mut i: usize = 0;
    while i < a.len()
        invariant
            a@ == t@,
            i <= a@.len(),
            forall|k: int| 0 <= k < i ==> ('a' <= #[trigger] a@[k] <= 'z' || a@[k] == '-'),
        decreases a@.len() - i,
    {
        let c: char = a[i];
        if !(('a' <= c && c <= 'z') || c == '-') {
            return false;
        }
        i = i + 1;
    }
    true
}

/// Whether a name, without tag and digest, has a transport before it.
fn names_transport(name: &str) -> (r: bool)
    ensures
        r == has_transport(name@),
{
    names_local_transport(name) || match cut(name, ':') {
        None => false,
        Some((t, rest)) => transport_name(t.as_str()) && !port(rest.as_str()),
    }
}

/// The image pinned to the manifest. `registry` says whether a transport that
/// names a registry was taken off before.
fn pin_in(image: &str, registry: bool, manifest_digest: &str) -> (r: Result<String, String>)
    ensures
        match pinned_in(image@, registry, manifest_digest@) {
            Ok(p) => r is Ok && r->Ok_0@ == p,
            Err(m) => r is Err && r->Err_0@ == m,
        },
{
    if !is_sha256_digest(manifest_digest) {
        let mut m: String = "invalid OCI manifest digest ".to_owned();
        m.append(quoted(manifest_digest).as_str());
        return Err(m);
    }
    let bare: String = podman_image(image);
    let at: usize = find_char(bare.as_str(), '@');
    let before_digest: String = head(bare.as_str(), at);
    let name: String = drop_tag(before_digest.as_str());
    if contains(bare.as_str(), "://") || (!registry && !starts_with(image, "docker://")
        && names_transport(name.as_str())) {
        let mut m: String = "unsupported image transport in ".to_owned();
        m.append(quoted(bare.as_str()).as_str());
        return Err(m);
    }
    if name.as_str().is_empty() {
        let mut m: String = "invalid image reference ".to_owned();
        m.append(quoted(bare.as_str()).as_str());
        return Err(m);
    }
    let mut p: String = name;
    p.append("@");
    p.append(manifest_digest);
    Ok(p)
}

/// The image pinned to the manifest: its name with the digest in place of a
/// tag or another digest, and without a transport.
pub fn pin_image_reference(image: &str, manifest_digest: &str) -> (r: Result<String, String>)
    ensures
        match pinned(image@, manifest_digest@) {
            Ok(p) => r is Ok && r->Ok_0@ == p,
            Err(m) => r is Err && r->Err_0@ == m,
        },
{
    pin_in(image, false, manifest_digest)
}

/// The value behind the last line that begins with the key.
pub open spec fn last_value(ls: Seq<Seq<char>>, key: Seq<char>) -> Option<Seq<char>>
    decreases ls.len(),
{
    if ls.len() == 0 {
        None
    } else {
        match after(trim(ls.last()), key) {
            Some(v) => Some(trim(v)),
            None => last_value(ls.drop_last(), key),
        }
    }
}

/// The value, if it is one word.
pub open spec fn token_only(v: Option<Seq<char>>) -> Option<Seq<char>> {
    if v is Some && is_word(v->0) {
        v
    } else {
        None
    }
}

/// The first of the words that begins like a digest.
pub open spec fn first_digest(words: Seq<Seq<char>>) -> Option<Seq<char>>
    decreases words.len(),
{
    if words.len() == 0 {
        None
    } else if begins(words[0], "sha256:"@) {
        Some(words[0])
    } else {
        first_digest(words.skip(1))
    }
}

/// The digests of the manifest and the configuration that a pull printed.
pub open spec fn digests_in(output: Seq<char>) -> (Option<Seq<char>>, Option<Seq<char>>) {
    let manifest = token_only(last_value(lines(output), "manifest "@));
    let config = token_only(last_value(lines(output), "config "@));
    (
        manifest,
        match config {
            Some(c) => Some(c),
            None => first_digest(fields(output)),
        },
    )
}

/// Whether the text is one word.
fn one_word(s: &str) -> (r: bool)
    ensures
        r == is_word(s@),
{
    let a: Vec<char> = chars_of(s);
    if a.len() == 0 {
        return false;
    }
    let mut i: usize = 0;
    while i < a.len()
        invariant
            a@ == s@,
            i <= a@.len(),
            forall|k: int| 0 <= k < i ==> !is_white(#[trigger] a@[k]),
        decreases a@.len() - i,
    {
        if white(a[i]) {
            return false;
        }
        i = i + 1;
    }
    true
}

/// The value behind the last line that begins with the key.
fn value_of(output: &str, key: &str) -> (r: Option<String>)
    ensures
        r.deep_view() == last_value(lines(output@), key@),
{
    let ls: Vec<String> = lines_of(output);
    let ghost all = ls.deep_view();
    let mut r: Option<String> = None;
    let mut i: usize = 0;
    assert(all.take(0) =~= Seq::empty());
    while i < ls.len()
        invariant
            all == ls.deep_view(),
            i <= ls@.len(),
            r.deep_view() == last_value(all.take(i as int), key@),
        decreases ls@.len() - i,
    {
        proof {
            assert(all[i as int] == ls@[i as int]@);
            assert(all.take(i + 1).drop_last() =~= all.take(i as int));
            assert(all.take(i + 1).last() == all[i as int]);
        }
        let t: String = trimmed(ls[i].as_str());
        match strip_prefix(t.as_str(), key) {
            Some(v) => {
                r = Some(trimmed(v.as_str()));
            },
            None => {},
        }
        i = i + 1;
    }
    assert(all.take(i as int) =~= all);
    r
}

/// The first of the words that begins like a digest.
fn find_digest(output: &str) -> (r: Option<String>)
    ensures
        r.deep_view() == first_digest(fields(output@)),
{
    let words: Vec<String> = fields_of(output);
    let ghost all = words.deep_view();
    let mut i: usize = 0;
    assert(all.skip(0) =~= all);
    while i < words.len()
        invariant
            all == words.deep_view(),
            all == fields(output@),
            i <= words@.len(),
            first_digest(all) == first_digest(all.skip(i as int)),
        decreases words@.len() - i,
    {
        proof {
            assert(all.skip(i as int)[0] == words@[i as int]@);
            assert(all.skip(i as int).skip(1) =~= all.skip(i + 1));
        }
        if starts_with(words[i].as_str(), "sha256:") {
            return Some(words[i].clone());
        }
        i = i + 1;
    }
    None
}

/// The digests of the manifest and the configuration that a pull printed. A
/// value of several words is none: a line feed in it would corrupt the file
/// that it is written to.
pub fn parse_pull_digests(pull_output: &str) -> (r: (Option<String>, Option<String>))
    ensures
        (r.0.deep_view(), r.1.deep_view()) == digests_in(pull_output@),
{
    let manifest: Option<String> = match value_of(pull_output, "manifest ") {
        Some(m) => if one_word(m.as_str()) {
            Some(m)
        } else {
            None
        },
        None => None,
    };
    let config: Option<String> = match value_of(pull_output, "config ") {
        Some(c) => if one_word(c.as_str()) {
            Some(c)
        } else {
            find_digest(pull_output)
        },
        None => find_digest(pull_output),
    };
    (manifest, config)
}

/// The manifest digest that podman reported, if it is one.
pub fn podman_manifest_digest(stdout: &str) -> (r: Option<String>)
    ensures
        r.deep_view() == (if is_sha256(trim(stdout@)) {
            Some(trim(stdout@))
        } else {
            None
        }),
{
    let d: String = trimmed(stdout);
    if is_sha256_digest(d.as_str()) {
        Some(d)
    } else {
        None
    }
}

/// The refusal of an image that podman could not refresh.
pub open spec fn not_refreshed(image: Seq<char>, stderr: Seq<char>) -> Seq<char> {
    "podman could not refresh "@ + image + ": "@ + trim(stderr)
        + ". Refusing to use a potentially stale local image"@
}

/// The refusal of an image whose manifest podman did not report.
pub open spec fn no_manifest(image: Seq<char>) -> Seq<char> {
    "podman refreshed "@ + image
        + ", but did not report a valid platform manifest digest"@
}

/// The target image pinned to the manifest that its tag names now.
///
/// `pull_failure` is what podman said where it could not refresh the image, and
/// `inspected` what it printed as the digest. An older image is never used in
/// place of one that could not be refreshed.
pub fn refresh_target_image(
    target_image: &str,
    pull_failure: Option<&str>,
    inspected: Option<&str>,
) -> (r: Result<ResolvedTargetImage, String>)
    ensures
        ({
            let image = without_docker(target_image@);
            match pull_failure {
                Some(e) => r is Err && r->Err_0@ == not_refreshed(image, e@),
                None => if inspected is None || !is_sha256(trim(inspected->0@)) {
                    r is Err && r->Err_0@ == no_manifest(image)
                } else {
                    let digest = trim(inspected->0@);
                    match pinned_in(image, begins(target_image@, "docker://"@), digest) {
                        Ok(p) => r is Ok && r->Ok_0.image_reference@ == p
                            && r->Ok_0.manifest_digest@ == digest,
                        Err(m) => r is Err && r->Err_0@ == m,
                    }
                },
            }
        }),
{
    let image: String = podman_image(target_image);
    match pull_failure {
        Some(e) => {
            let mut m: String = "podman could not refresh ".to_owned();
            m.append(image.as_str());
            m.append(": ");
            m.append(trimmed(e).as_str());
            m.append(". Refusing to use a potentially stale local image");
            return Err(m);
        },
        None => {},
    }
    let digest: Option<String> = match inspected {
        Some(out) => podman_manifest_digest(out),
        None => None,
    };
    match digest {
        None => {
            let mut m: String = "podman refreshed ".to_owned();
            m.append(image.as_str());
            m.append(", but did not report a valid platform manifest digest");
            Err(m)
        },
        Some(manifest_digest) => match pin_in(
            image.as_str(),
            starts_with(target_image, "docker://"),
            manifest_digest.as_str(),
        ) {
            Ok(image_reference) => Ok(ResolvedTargetImage { image_reference, manifest_digest }),
            Err(m) => Err(m),
        },
    }
}

/// What the pull is to do next.
#[derive(Debug, Clone, PartialEq, Eq)]
pub enum PullStep {
    /// Nothing: a dry run has its answer.
    Done(PulledImage),
    /// Resolve the tag.
    Resolve,
}

/// What a pull starts with: a dry run neither resolves nor pulls.
pub fn phase2_pull_image(target_image: &str, dry_run: bool) -> (r: PullStep)
    ensures
        match r {
            PullStep::Done(p) => dry_run && p.deep_view() == (PulledImageView {
                image_reference: target_image@,
                manifest_digest: "dry-run-manifest"@,
                config_digest: "dry-run-config"@,
            }),
            PullStep::Resolve => !dry_run,
        },
{
    if dry_run {
        return PullStep::Done(
            PulledImage {
                image_reference: target_image.to_owned(),
                manifest_digest: "dry-run-manifest".to_owned(),
                config_digest: "dry-run-config".to_owned(),
            },
        );
    }
    PullStep::Resolve
}

/// The refusal of a pull that brought another manifest.
pub open spec fn other_generation(
    pulled_digest: Seq<char>,
    target_image: Seq<char>,
    resolved: Seq<char>,
) -> Seq<char> {
    "ComposeFS pulled manifest "@ + pulled_digest + ", but podman resolved "@ + target_image
        + " to "@ + resolved + ". Refusing to mix image generations"@
}

/// The image that was pulled, from what the store printed. A store that pulled
/// another manifest than the one resolved is refused.
pub fn finish_pull(target_image: &str, resolved: ResolvedTargetImage, pull_output: &str) -> (r:
    Result<PulledImage, String>)
    ensures
        ({
            let (manifest, config) = digests_in(pull_output@);
            if manifest is Some && manifest->0 != resolved.manifest_digest@ {
                r is Err && r->Err_0@ == other_generation(
                    manifest->0,
                    target_image@,
                    resolved.manifest_digest@,
                )
            } else {
                r is Ok && r->Ok_0.deep_view() == (PulledImageView {
                    image_reference: resolved.image_reference@,
                    manifest_digest: resolved.manifest_digest@,
                    config_digest: match config {
                        Some(c) => c,
                        None => Seq::empty(),
                    },
                })
            }
        }),
{
    let (manifest, config) = parse_pull_digests(pull_output);
    match &manifest {
        Some(m) => {
            if !same(m.as_str(), resolved.manifest_digest.as_str()) {
                let mut e: String = "ComposeFS pulled manifest ".to_owned();
                e.append(m.as_str());
                e.append(", but podman resolved ");
                e.append(target_image);
                e.append(" to ");
                e.append(resolved.manifest_digest.as_str());
                e.append(". Refusing to mix image generations");
                return Err(e);
            }
        },
        None => {},
    }
    let config_digest: String = match config {
        Some(c) => c,
        None => String::new(),
    };
    Ok(
        PulledImage {
            image_reference: resolved.image_reference,
            manifest_digest: resolved.manifest_digest,
            config_digest,
        },
    )
}

/// The first of the words that begins like a digest is one of them.
proof fn lemma_first_digest(words: Seq<Seq<char>>)
    requires
        first_digest(words) is Some,
    ensures
        words.contains(first_digest(words)->0),
    decreases words.len(),
{
    if begins(words[0], "sha256:"@) {
        assert(words[0] == first_digest(words)->0);
    } else {
        lemma_first_digest(words.skip(1));
        let i = choose|i: int|
            0 <= i < words.skip(1).len() && words.skip(1)[i] == first_digest(words.skip(1))->0;
        assert(words[i + 1] == first_digest(words)->0);
    }
}

/// Whatever a pull prints, a digest that is taken from it is one word: nothing
/// in it can start a new line.
pub proof fn law_digests_are_single_words(output: Seq<char>)
    ensures
        digests_in(output).0 is Some ==> is_word(digests_in(output).0->0),
        digests_in(output).1 is Some ==> is_word(digests_in(output).1->0),
{
    let config = token_only(last_value(lines(output), "config "@));
    if config is None && first_digest(fields(output)) is Some {
        lemma_fields_are_words(output);
        lemma_first_digest(fields(output));
        let words = fields(output);
        let d = first_digest(words)->0;
        let i = choose|i: int| 0 <= i < words.len() && words[i] == d;
        assert(is_word(words[i]));
    }
}

/// A pinned image is its name, one `@`, and the digest.
pub proof fn law_pinned_image_names_the_manifest(image: Seq<char>, digest: Seq<char>)
    requires
        pinned(image, digest) is Ok,
    ensures
        ({
            let p = pinned(image, digest)->Ok_0;
            &&& is_sha256(digest)
            &&& up_to(p, '@').len() > 0
            &&& p == up_to(p, '@') + "@"@ + digest
        }),
{
    reveal_strlit("@");
    let bare = without_docker(image);
    let before = up_to(bare, '@');
    let name = without_tag(before);
    lemma_first_index(bare, '@');
    lemma_last_index(before, ':');
    let p = pinned(image, digest)->Ok_0;
    assert forall|i: int| 0 <= i < name.len() implies p[i] != '@' by {
        assert(p[i] == bare[i]);
    }
    assert(p[name.len() as int] == '@');
    lemma_first_index_unique(p, '@', name.len() as int);
    assert(up_to(p, '@') =~= name);
}

/// A pinned image has no transport before it: none with `://`, and where the
/// image did not say that it is in a registry, no other.
pub proof fn law_pinned_image_has_no_transport(image: Seq<char>, digest: Seq<char>)
    requires
        pinned(image, digest) is Ok,
    ensures
        ({
            let name = up_to(pinned(image, digest)->Ok_0, '@');
            &&& !holds(name, "://"@)
            &&& !begins(image, "docker://"@) ==> !has_transport(name)
        }),
{
    let bare = without_docker(image);
    let before = up_to(bare, '@');
    let name = without_tag(before);
    let p = pinned(image, digest)->Ok_0;
    reveal_strlit("@");
    lemma_first_index(bare, '@');
    lemma_last_index(before, ':');
    assert forall|i: int| 0 <= i < name.len() implies p[i] != '@' by {
        assert(p[i] == bare[i]);
    }
    assert(p[name.len() as int] == '@');
    lemma_first_index_unique(p, '@', name.len() as int);
    assert(up_to(p, '@') =~= name);
    assert(name =~= bare.take(name.len() as int));
    if holds(name, "://"@) {
        let i = choose|i: int| occurs_at(name, "://"@, i);
        assert(bare.subrange(i, i + "://"@.len()) =~= name.subrange(i, i + "://"@.len()));
        assert(occurs_at(bare, "://"@, i));
    }
}

} // verus!
