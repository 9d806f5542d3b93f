//! Laws of images, of their digests, and of the way from one base to another.

use vstd::prelude::*;

use crate::migration::pull::{
    digests_in, first_digest, is_sha256, last_value, pinned, without_docker,
};
use crate::rebase_plan::{bootloader_between, phases_between, route_between, Backend, Phase};
use crate::scan::{lineage_of, BaseInfoView};
use crate::text::chars::is_hex_digit;
use crate::text::pieces::{fields, is_word, lemma_trimmed_is_kept, lines, trim};
use crate::text::search::{
    begins, first_index, holds, last_index, lemma_first_index_unique, lemma_last_index,
};

verus! {

/// A digest is one by SHA-256 where sixty-four hexadecimal digits follow the name
/// of the algorithm, and nothing else.
pub proof fn law_digest_in_full(digest: Seq<char>)
    ensures
        is_sha256(digest) <==> digest.len() == 71 && begins(digest, "sha256:"@) && forall|i: int|
            7 <= i < 71 ==> is_hex_digit(#[trigger] digest[i]),
{
    reveal_strlit("sha256:");
    if begins(digest, "sha256:"@) {
        let hex = digest.skip(7);
        if is_sha256(digest) {
            assert forall|i: int| 7 <= i < 71 implies is_hex_digit(#[trigger] digest[i]) by {
                assert(hex[i - 7] == digest[i]);
            }
        }
    }
}

proof fn lemma_no_index(s: Seq<char>, c: char)
    requires
        !s.contains(c),
    ensures
        first_index(s, c) == s.len(),
        last_index(s, c) == -1,
{
    lemma_last_index(s, c);
    assert forall|i: int| 0 <= i < s.len() implies s[i] != c by {
        assert(s.contains(s[i]));
    }
    lemma_first_index_unique(s, c, s.len() as int);
}

/// What may follow the name of an image: nothing, or a tag behind a colon.
pub open spec fn is_tag(t: Seq<char>) -> bool {
    t.len() == 0 || t[0] == ':' && !t.skip(1).contains(':') && !t.contains('/') && !t.contains('@')
}

/// What may follow the tag of an image: nothing, or a digest behind an at sign.
pub open spec fn is_old_digest(t: Seq<char>) -> bool {
    t.len() == 0 || t[0] == '@'
}

proof fn lemma_pinned_name(name: Seq<char>, tag: Seq<char>, old: Seq<char>)
    requires
        name.len() > 0,
        !name.contains('@'),
        last_index(name, ':') < 0 || last_index(name, ':') < last_index(name, '/'),
        is_tag(tag),
        is_old_digest(old),
    ensures
        crate::migration::pull::without_tag(
            crate::text::search::up_to(name + tag + old, '@'),
        ) == name,
{
    let bare = name + tag + old;
    let before = name + tag;
    assert forall|i: int| 0 <= i < before.len() implies bare[i] != '@' by {
        if i < name.len() {
            assert(bare[i] == name[i]);
            assert(name.contains(name[i]));
        } else {
            assert(bare[i] == tag[i - name.len()]);
            assert(tag.contains(tag[i - name.len()]));
        }
    }
    if old.len() > 0 {
        assert(bare[before.len() as int] == '@');
    }
    lemma_first_index_unique(bare, '@', before.len() as int);
    assert(bare.take(before.len() as int) =~= before);
    lemma_last_index(before, ':');
    lemma_last_index(before, '/');
    lemma_last_index(name, ':');
    lemma_last_index(name, '/');
    if tag.len() == 0 {
        assert(before =~= name);
    } else {
        let n = name.len() as int;
        assert(before[n] == ':');
        assert forall|i: int| n < i < before.len() implies before[i] != ':' by {
            assert(before[i] == tag.skip(1)[i - n - 1]);
            assert(tag.skip(1).contains(tag.skip(1)[i - n - 1]));
        }
        assert(last_index(before, ':') == n);
        assert forall|i: int| n <= i < before.len() implies before[i] != '/' by {
            assert(before[i] == tag[i - n]);
            assert(tag.contains(tag[i - n]));
        }
        assert(before.take(n) =~= name);
    }
}

/// An image in a registry is pinned to its manifest under its own name, with a
/// port where it has one: the tag and the digest that it came with are left out,
/// whatever they are.
pub proof fn law_registry_image_is_pinned(
    name: Seq<char>,
    tag: Seq<char>,
    old: Seq<char>,
    digest: Seq<char>,
)
    requires
        name.len() > 0,
        !name.contains('@'),
        last_index(name, ':') < 0 || last_index(name, ':') < last_index(name, '/'),
        is_tag(tag),
        is_old_digest(old),
        !holds(name + tag + old, "://"@),
        is_sha256(digest),
    ensures
        pinned("docker://"@ + (name + tag + old), digest) == Ok::<Seq<char>, Seq<char>>(
            name + "@"@ + digest,
        ),
{
    let bare = name + tag + old;
    let image = "docker://"@ + bare;
    assert(image.take("docker://"@.len() as int) =~= "docker://"@);
    assert(image.skip("docker://"@.len() as int) =~= bare);
    lemma_pinned_name(name, tag, old);
}

/// So is one whose name has no colon, without a transport before it.
pub proof fn law_plain_image_is_pinned(
    name: Seq<char>,
    tag: Seq<char>,
    old: Seq<char>,
    digest: Seq<char>,
)
    requires
        name.len() > 0,
        !name.contains('@'),
        !name.contains(':'),
        is_tag(tag),
        is_old_digest(old),
        !holds(name + tag + old, "://"@),
        is_sha256(digest),
    ensures
        pinned(name + tag + old, digest) == Ok::<Seq<char>, Seq<char>>(name + "@"@ + digest),
{
    reveal_strlit("docker://");
    reveal_strlit("://");
    let bare = name + tag + old;
    if begins(bare, "docker://"@) {
        assert(bare.subrange(6, 9) =~= "://"@) by {
            assert(bare.take(9) == "docker://"@);
            assert(bare[6] == bare.take(9)[6]);
            assert(bare[7] == bare.take(9)[7]);
            assert(bare[8] == bare.take(9)[8]);
        }
        assert(crate::text::search::occurs_at(bare, "://"@, 6));
    }
    lemma_no_index(name, ':');
    lemma_pinned_name(name, tag, old);
    lemma_no_local_transport(name);
}

proof fn lemma_no_local_transport(name: Seq<char>)
    requires
        !name.contains(':'),
    ensures
        !crate::migration::pull::has_transport(name),
{
    let ts = crate::migration::pull::local_transports();
    reveal_strlit("containers-storage:");
    reveal_strlit("dir:");
    reveal_strlit("docker-archive:");
    reveal_strlit("docker-daemon:");
    reveal_strlit("oci:");
    reveal_strlit("oci-archive:");
    reveal_strlit("ostree:");
    reveal_strlit("sif:");
    assert forall|i: int| 0 <= i < ts.len() implies !begins(name, #[trigger] ts[i]) by {
        let t = ts[i];
        assert(t.len() > 0 && t.last() == ':');
        if begins(name, t) {
            let n = t.len() - 1;
            assert(name.take(t.len() as int)[n] == t[n]);
            assert(name[n] == ':');
            assert(name.contains(name[n]));
        }
    }
    lemma_no_index(name, ':');
}

/// The value behind a key is that of the last line that has it.
pub proof fn law_last_value_wins(
    a: Seq<Seq<char>>,
    line: Seq<char>,
    b: Seq<Seq<char>>,
    key: Seq<char>,
    v: Seq<char>,
)
    requires
        trim(line) == key + v,
        forall|i: int| 0 <= i < b.len() ==> !begins(trim(#[trigger] b[i]), key),
    ensures
        last_value(a + seq![line] + b, key) == Some(trim(v)),
    decreases b.len(),
{
    let ls = a + seq![line] + b;
    if b.len() == 0 {
        assert(ls.last() == line);
        assert((key + v).take(key.len() as int) =~= key);
        assert((key + v).skip(key.len() as int) =~= v);
    } else {
        assert(ls.last() == b.last());
        assert(b.last() == b[b.len() - 1]);
        assert(ls.drop_last() =~= a + seq![line] + b.drop_last());
        law_last_value_wins(a, line, b.drop_last(), key, v);
    }
}

/// A key that no line has, has no value.
pub proof fn law_no_line_no_value(ls: Seq<Seq<char>>, key: Seq<char>)
    requires
        forall|i: int| 0 <= i < ls.len() ==> !begins(trim(#[trigger] ls[i]), key),
    ensures
        last_value(ls, key) is None,
    decreases ls.len(),
{
    if ls.len() > 0 {
        assert(ls.last() == ls[ls.len() - 1]);
        law_no_line_no_value(ls.drop_last(), key);
    }
}

/// What a pull printed: the last line for the manifest gives its digest, and the
/// last for the configuration gives that one's, each where one word follows.
pub proof fn law_digests_of_a_pull(
    output: Seq<char>,
    a: Seq<Seq<char>>,
    line: Seq<char>,
    b: Seq<Seq<char>>,
    v: Seq<char>,
)
    requires
        lines(output) == a + seq![line] + b,
        is_word(v),
    ensures
        trim(line) == "manifest "@ + v && (forall|i: int|
            0 <= i < b.len() ==> !begins(trim(#[trigger] b[i]), "manifest "@)) ==> digests_in(
            output,
        ).0 == Some(v),
        trim(line) == "config "@ + v && (forall|i: int|
            0 <= i < b.len() ==> !begins(trim(#[trigger] b[i]), "config "@)) ==> digests_in(
            output,
        ).1 == Some(v),
{
    lemma_trimmed_is_kept(v);
    if trim(line) == "manifest "@ + v && (forall|i: int|
        0 <= i < b.len() ==> !begins(trim(#[trigger] b[i]), "manifest "@)) {
        law_last_value_wins(a, line, b, "manifest "@, v);
    }
    if trim(line) == "config "@ + v && (forall|i: int|
        0 <= i < b.len() ==> !begins(trim(#[trigger] b[i]), "config "@)) {
        law_last_value_wins(a, line, b, "config "@, v);
    }
}

/// A pull that names neither has no manifest, and its configuration is the first
/// word that begins like a digest, if there is one.
pub proof fn law_digests_without_names(output: Seq<char>, k: int)
    requires
        forall|i: int|
            0 <= i < lines(output).len() ==> !begins(trim(#[trigger] lines(output)[i]), "manifest "@)
                && !begins(trim(lines(output)[i]), "config "@),
    ensures
        digests_in(output).0 is None,
        0 <= k < fields(output).len() && begins(fields(output)[k], "sha256:"@) && (forall|j: int|
            0 <= j < k ==> !begins(#[trigger] fields(output)[j], "sha256:"@)) ==> digests_in(
            output,
        ).1 == Some(fields(output)[k]),
        (forall|j: int|
            0 <= j < fields(output).len() ==> !begins(#[trigger] fields(output)[j], "sha256:"@))
            ==> digests_in(output).1 is None,
{
    law_no_line_no_value(lines(output), "manifest "@);
    law_no_line_no_value(lines(output), "config "@);
    lemma_first_word(fields(output), k);
}

proof fn lemma_first_word(words: Seq<Seq<char>>, k: int)
    ensures
        0 <= k < words.len() && begins(words[k], "sha256:"@) && (forall|j: int|
            0 <= j < k ==> !begins(#[trigger] words[j], "sha256:"@)) ==> first_digest(words)
            == Some(words[k]),
        (forall|j: int| 0 <= j < words.len() ==> !begins(#[trigger] words[j], "sha256:"@))
            ==> first_digest(words) is None,
    decreases words.len(),
{
    if words.len() > 0 {
        let d = words.skip(1);
        lemma_first_word(d, k - 1);
        assert forall|j: int| 0 <= j < d.len() implies #[trigger] d[j] == words[j + 1] by {}
        if 0 < k < words.len() {
            assert(d[k - 1] == words[k]);
        }
    }
}

/// Every way has a route that says where it starts and ends. It is a conversion
/// exactly where OSTree becomes composefs, and only from composefs back to OSTree
/// it cannot be gone yet.
pub proof fn law_routes(from: Backend, to: Backend)
    ensures
        ({
            let r = route_between(from, to);
            let there = from is Ostree && to is Composefs;
            &&& r.from == from && r.to == to
            &&& r.strategy is CoreMigration <==> there
            &&& r.strategy is ImageSwap <==> from is Composefs && to is Composefs
            &&& r.strategy is OstreeDeploy <==> to is Ostree
            &&& !r.implemented <==> from is Composefs && to is Ostree
        }),
{
}

/// Every way checks first, then pulls and deploys. The host's objects are taken
/// over and an image is sealed exactly where OSTree becomes composefs; and the
/// bootloader is the target's, and set up, exactly where the backend changes.
pub proof fn law_phases(from: Backend, to: Backend, p: Phase)
    ensures
        ({
            let ps = phases_between(from, to);
            let there = from is Ostree && to is Composefs;
            &&& ps.contains(p) <==> match p {
                Phase::Preflight | Phase::Pull | Phase::Deploy => true,
                Phase::Import | Phase::Seal => there,
                Phase::Bootloader => from != to,
            }
            &&& ps[0] is Preflight
            &&& bootloader_between(from, to) is Target <==> from != to
        }),
{
    let ps = phases_between(from, to);
    assert(ps[0] is Preflight);
    match from {
        Backend::Ostree => match to {
            Backend::Ostree => {
                assert(ps[1] is Pull && ps[2] is Deploy);
            },
            Backend::Composefs => {
                assert(ps[1] is Import && ps[2] is Pull && ps[3] is Seal && ps[4] is Deploy
                    && ps[5] is Bootloader);
            },
        },
        Backend::Composefs => match to {
            Backend::Ostree => {
                assert(ps[1] is Pull && ps[2] is Deploy && ps[3] is Bootloader);
            },
            Backend::Composefs => {
                assert(ps[1] is Pull && ps[2] is Deploy);
            },
        },
    }
}

/// Whether the base goes by the id.
pub open spec fn goes_by(b: BaseInfoView, id: Seq<char>) -> bool {
    b.id == id || b.id_like is Some && fields(b.id_like->0).contains(id)
}

/// Bases are the same where their ids are; of one family where they go by some
/// id that is shared; and unrelated where they share none.
pub proof fn law_lineage(a: BaseInfoView, b: BaseInfoView, id: Seq<char>)
    ensures
        lineage_of(a, b) is SameBase <==> a.id == b.id,
        goes_by(a, id) && goes_by(b, id) ==> !(lineage_of(a, b) is CrossFamily),
        lineage_of(a, b) is CrossFamily || exists|x: Seq<char>|
            #[trigger] goes_by(a, x) && goes_by(b, x),
{
    let p = crate::scan::lineage_ids(a);
    let q = crate::scan::lineage_ids(b);
    lemma_goes_by(a, id);
    lemma_goes_by(b, id);
    if goes_by(a, id) && goes_by(b, id) {
        let i = choose|i: int| 0 <= i < p.len() && p[i] == id;
        assert(q.contains(p[i]));
    }
    if !(lineage_of(a, b) is CrossFamily) {
        if a.id == b.id {
            assert(goes_by(a, a.id));
        } else {
            let i = choose|i: int| 0 <= i < p.len() && q.contains(#[trigger] p[i]);
            lemma_goes_by(a, p[i]);
            lemma_goes_by(b, p[i]);
            assert(p.contains(p[i]));
            assert(goes_by(a, p[i]));
        }
    }
}

proof fn lemma_goes_by(b: BaseInfoView, id: Seq<char>)
    ensures
        crate::scan::lineage_ids(b).contains(id) <==> goes_by(b, id),
{
    let p = crate::scan::lineage_ids(b);
    assert(p[0] == b.id);
    if b.id_like is Some {
        let f = fields(b.id_like->0);
        if f.contains(id) {
            let i = choose|i: int| 0 <= i < f.len() && f[i] == id;
            assert(p[i + 1] == id);
        }
        if p.contains(id) {
            let i = choose|i: int| 0 <= i < p.len() && p[i] == id;
            if i > 0 {
                assert(f[i - 1] == id);
            }
        }
    }
}

/// A transport that is written before a name with a colon is refused, whatever it
/// is called: where small letters and hyphens stand before the first colon, and no
/// port follows it.
pub proof fn law_transports_are_refused(t: Seq<char>, rest: Seq<char>, digest: Seq<char>)
    requires
        t.len() > 0,
        forall|i: int| 0 <= i < t.len() ==> 'a' <= #[trigger] t[i] <= 'z' || t[i] == '-',
        rest.len() > 0,
        !('0' <= rest[0] <= '9'),
        rest[0] != '/',
        !rest.contains(':'),
        !rest.contains('@'),
        rest.contains('/'),
    ensures
        pinned(t + seq![':'] + rest, digest) is Err,
{
    reveal_strlit("docker://");
    let image = t + seq![':'] + rest;
    let n = t.len() as int;
    assert(image[n] == ':');
    if begins(image, "docker://"@) {
        assert forall|i: int| 0 <= i < 9 implies image[i] == "docker://"@[i] by {
            assert(image.take(9)[i] == image[i]);
        }
        assert(n == 6) by {
            if n < 6 {
                assert("docker://"@[n] != ':');
            }
            if n > 6 {
                assert(image[6] == t[6]);
            }
        }
        assert(image[7] == rest[0]);
    }
    assert(without_docker(image) == image);
    assert forall|i: int| 0 <= i < image.len() implies image[i] != '@' by {
        if i < n {
            assert(image[i] == t[i]);
        } else if i > n {
            assert(image[i] == rest[i - n - 1]);
            assert(rest.contains(rest[i - n - 1]));
        }
    }
    lemma_first_index_unique(image, '@', image.len() as int);
    assert(image.take(image.len() as int) =~= image);
    let s = choose|k: int| 0 <= k < rest.len() && rest[k] == '/';
    lemma_last_index(image, '/');
    lemma_last_index(image, ':');
    assert(image[n + 1 + s] == '/');
    assert forall|i: int| n < i < image.len() implies image[i] != ':' by {
        assert(image[i] == rest[i - n - 1]);
        assert(rest.contains(rest[i - n - 1]));
    }
    assert(last_index(image, ':') == n);
    assert forall|i: int| 0 <= i < n implies image[i] != ':' by {
        assert(image[i] == t[i]);
    }
    lemma_first_index_unique(image, ':', n);
    assert(image.take(n) =~= t);
    assert(image.skip(n + 1) =~= rest);
    crate::text::search::lemma_first_index(rest, '/');
    let f = first_index(rest, '/');
    assert(f > 0);
    if f < rest.len() {
        assert(rest.take(f)[0] == rest[0]);
    }
}

} // verus!
