use vstd::prelude::*;
use crate::collect::{link_views, CandidateLink, LinkModel};
use crate::strutil::{
    ends_with_chars, find_last_char, is_suffix, last_index_of, lemma_last_index_of_at,
    lemma_last_index_of_ge, str_chars,
};

verus! {

/// What lowercasing yields; the result depends on the characters alone.
pub uninterp spec fn lower_of(s: Seq<char>) -> Seq<char>;

/// Relies on `str::to_lowercase`: the lowercase form is a function of
/// the characters alone.
#[verifier::external_body]
fn lowercase(s: &str) -> (r: String)
    ensures
        r@ == lower_of(s@),
{
    s.to_lowercase()
}

/// The recognized media, document and model file extensions, one flat
/// list: audio, video, 3D model, raster image, vector image and CAD
/// formats.
pub open spec fn media_ext_model() -> Seq<Seq<char>> {
    seq![
        "mid"@, "mp3"@, "m4a"@, "m3u"@, "ogg"@, "wav"@, "wma"@, "flac"@, "aif"@,
        "3gp"@, "asf"@, "avi"@, "m4v"@, "mov"@, "mp4"@, "mpg"@, "srt"@, "swf"@,
        "ts"@, "vob"@, "wmv"@,
        "3dm"@, "3ds"@, "blend"@, "dae"@, "fbx"@, "max"@, "obj"@,
        "bmp"@, "dcm"@, "dds"@, "djvu"@, "gif"@, "heic"@, "jpg"@, "jpeg"@,
        "png"@, "psd"@, "tga"@, "tif"@, "tiff"@,
        "ai"@, "cdr"@, "emf"@, "eps"@, "ps"@, "sketch"@, "svg"@, "vsdx"@,
        "dgn"@, "dwg"@, "dxf"@, "step"@, "stl"@, "stp"@,
    ]
}

/// The recognized extensions, as a vector.
pub fn media_extensions() -> (r: Vec<&'static str>)
    ensures
        r@.map_values(|e: &str| e@) == media_ext_model(),
{
    let mut v: Vec<&'static str> = Vec::new();
    v.push("mid");
    v.push("mp3");
    v.push("m4a");
    v.push("m3u");
    v.push("ogg");
    v.push("wav");
    v.push("wma");
    v.push("flac");
    v.push("aif");
    v.push("3gp");
    v.push("asf");
    v.push("avi");
    v.push("m4v");
    v.push("mov");
    v.push("mp4");
    v.push("mpg");
    v.push("srt");
    v.push("swf");
    v.push("ts");
    v.push("vob");
    v.push("wmv");
    v.push("3dm");
    v.push("3ds");
    v.push("blend");
    v.push("dae");
    v.push("fbx");
    v.push("max");
    v.push("obj");
    v.push("bmp");
    v.push("dcm");
    v.push("dds");
    v.push("djvu");
    v.push("gif");
    v.push("heic");
    v.push("jpg");
    v.push("jpeg");
    v.push("png");
    v.push("psd");
    v.push("tga");
    v.push("tif");
    v.push("tiff");
    v.push("ai");
    v.push("cdr");
    v.push("emf");
    v.push("eps");
    v.push("ps");
    v.push("sketch");
    v.push("svg");
    v.push("vsdx");
    v.push("dgn");
    v.push("dwg");
    v.push("dxf");
    v.push("step");
    v.push("stl");
    v.push("stp");
    proof {
        assert(v@.map_values(|e: &str| e@) =~= media_ext_model());
    }
    v
}

/// Whether `path` ends in a dot followed by one of the given extensions.
pub fn is_media_file(path: &str, extension_set: &Vec<&str>) -> (r: bool)
    ensures
        r == exists|i: int|
            0 <= i < extension_set@.len() && is_suffix(
                seq!['.'] + (#[trigger] extension_set@[i])@,
                path@,
            ),
{
    let mut i: usize = 0;
    while i < extension_set.len()
        invariant
            i <= extension_set@.len(),
            forall|k: int|
                0 <= k < i ==> !is_suffix(seq!['.'] + (#[trigger] extension_set@[k])@, path@),
        decreases extension_set@.len() - i,
    {
        let mut suffix: Vec<char> = Vec::new();
        suffix.push('.');
        let mut ext = str_chars(extension_set[i]);
        suffix.append(&mut ext);
        proof {
            assert(suffix@ =~= seq!['.'] + extension_set@[i as int]@);
        }
        if ends_with_chars(path, &suffix) {
            return true;
        }
        i = i + 1;
    }
    false
}

/// Whether the (lowered) path ends in a dot and a recognized extension.
pub open spec fn is_media_path(p: Seq<char>) -> bool {
    exists|i: int|
        0 <= i < media_ext_model().len() && is_suffix(
            seq!['.'] + #[trigger] media_ext_model()[i],
            p,
        )
}

/// The characters after the last dot of `p`.
pub open spec fn media_extension_of(p: Seq<char>) -> Seq<char> {
    p.subrange(last_index_of(p, '.') + 1, p.len() as int)
}

/// A recognized path has a dot, and its matched extension stands after
/// the last one.
pub proof fn lemma_media_path_has_dot(p: Seq<char>)
    requires
        is_media_path(p),
    ensures
        last_index_of(p, '.') >= 0,
{
    let i = choose|i: int|
        0 <= i < media_ext_model().len() && is_suffix(seq!['.'] + #[trigger] media_ext_model()[i], p);
    let e = media_ext_model()[i];
    let d = p.len() - e.len() - 1;
    assert(p.subrange(d, p.len() as int)[0] == '.');
    assert(p[d] == '.');
    lemma_last_index_of_ge(p, '.', d);
}

/// Classification exactness, the positive direction: a path that ends in
/// a dot and a dot-free extension is classified with exactly that
/// extension.
pub proof fn lemma_classification_exact(p: Seq<char>, e: Seq<char>)
    requires
        e.len() > 0,
        forall|k: int| 0 <= k < e.len() ==> e[k] != '.',
        is_suffix(seq!['.'] + e, p),
    ensures
        last_index_of(p, '.') == p.len() - e.len() - 1,
        media_extension_of(p) == e,
{
    let d = p.len() - e.len() - 1;
    let suf = p.subrange(d, p.len() as int);
    assert(suf[0] == '.');
    assert(p[d] == '.');
    assert forall|m: int| d < m < p.len() implies p[m] != '.' by {
        assert(suf[m - d] == e[m - d - 1]);
    }
    lemma_last_index_of_at(p, '.', d);
    assert forall|k: int| 0 <= k < e.len() implies media_extension_of(p)[k] == e[k] by {
        assert(media_extension_of(p)[k] == p[d + 1 + k]);
        assert(p[d + 1 + k] == suf[k + 1]);
        assert(suf[k + 1] == (seq!['.'] + e)[k + 1]);
    }
    assert(media_extension_of(p) =~= e);
}

/// Classification exactness, the negative direction: a path with no dot
/// is never recognized.
pub proof fn lemma_no_dot_not_media(p: Seq<char>)
    requires
        forall|k: int| 0 <= k < p.len() ==> p[k] != '.',
    ensures
        !is_media_path(p),
{
    if is_media_path(p) {
        lemma_media_path_has_dot(p);
        crate::strutil::lemma_last_index_of_bounds(p, '.');
    }
}

/// The classified subsequence of `s`: the links whose lowered path ends
/// in a recognized extension, each stamped with the characters after the
/// last dot of its lowered path; the rest are dropped silently.
pub open spec fn classified_links(s: Seq<LinkModel>) -> Seq<LinkModel>
    decreases s.len(),
{
    if s.len() == 0 {
        Seq::empty()
    } else {
        classified_links(s.drop_last()) + {
            let l = s.last();
            let low = lower_of(l.url.path);
            if is_media_path(low) {
                seq![LinkModel { extension: Some(media_extension_of(low)), ..l }]
            } else {
                Seq::empty()
            }
        }
    }
}

/// Keep the links whose lowered URL path ends in a dot and a recognized
/// extension, stamping each with the matched extension; drop the rest
/// silently. A pure filter: no error conditions.
pub fn filter_media_links(links: Vec<CandidateLink>) -> (r: Vec<CandidateLink>)
    ensures
        link_views(r@) == classified_links(link_views(links@)),
{
    let ghost all = link_views(links@);
    let extensions = media_extensions();
    let mut out: Vec<CandidateLink> = Vec::new();
    let mut i: usize = 0;
    while i < links.len()
        invariant
            i <= links@.len(),
            all == link_views(links@),
            extensions@.map_values(|e: &str| e@) == media_ext_model(),
            link_views(out@) == classified_links(all.take(i as int)),
        decreases links@.len() - i,
    {
        proof {
            assert(all.take(i + 1).drop_last() =~= all.take(i as int));
            assert(all.take(i + 1).last() == links@[i as int]@);
            assert(all[i as int] == links@[i as int]@);
        }
        let ghost pre = out@;
        let low = lowercase(links[i].url.path.as_str());
        let is_media = is_media_file(low.as_str(), &extensions);
        proof {
            assert forall|k: int| 0 <= k < extensions@.len() implies (#[trigger] extensions@[k])@
                == media_ext_model()[k] by {
                assert(extensions@.map_values(|e: &str| e@)[k] == media_ext_model()[k]);
            }
            assert(is_media == is_media_path(low@));
        }
        if is_media {
            let n: usize = low.as_str().unicode_len();
            let j = match find_last_char(low.as_str(), '.') {
                Some(j) => j,
                None => {
                    proof {
                        // a recognized path has a dot, so this is unreachable
                        lemma_media_path_has_dot(low@);
                        assert(false);
                    }
                    return out;
                },
            };
            proof {
                crate::strutil::lemma_last_index_of_bounds(low@, '.');
            }
            let ext = String::from_str(low.as_str().substring_char(j + 1, n));
            let mut l = links[i].duplicate();
            l.extension = Some(ext);
            out.push(l);
            proof {
                assert(link_views(out@) =~= pre.map_values(|x: CandidateLink| x@) + seq![
                    LinkModel {
                        extension: Some(media_extension_of(low@)),
                        ..all[i as int]
                    },
                ]);
            }
        }
        proof {
            assert(link_views(out@) =~= classified_links(all.take(i + 1)));
        }
        i = i + 1;
    }
    proof {
        assert(all.take(links@.len() as int) =~= all);
    }
    out
}

} // verus!
