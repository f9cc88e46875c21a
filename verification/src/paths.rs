use vstd::prelude::*;

verus! {

/// The path with every backslash turned into a forward slash.
pub open spec fn slash_normalized(path: Seq<char>) -> Seq<char> {
    path.map_values(|c: char| if c == '\\' { '/' } else { c })
}

/// `needle` occurs in `hay` as a contiguous run.
pub open spec fn occurs(hay: Seq<char>, needle: Seq<char>) -> bool {
    exists|i: int| 0 <= i && i + needle.len() <= hay.len() && #[trigger] hay.subrange(i, i + needle.len()) == needle
}

/// The characters of `path` with backslashes turned into forward slashes.
fn normalized_chars(path: &str) -> (r: Vec<char>)
    ensures
        r@ == slash_normalized(path@),
{
    let n = path.unicode_len();
    let mut r: Vec<char> = Vec::new();
    let mut i: usize = 0;
    while i < n
        invariant
            n == path@.len(),
            i <= n,
            r@ == slash_normalized(path@.take(i as int)),
        decreases n - i,
    {
        let c = path.get_char(i);
        r.push(if c == '\\' { '/' } else { c });
        proof {
            assert(path@.take(i + 1) =~= path@.take(i as int).push(c));
            assert(r@ =~= slash_normalized(path@.take(i + 1)));
        }
        i += 1;
    }
    proof {
        assert(path@.take(n as int) =~= path@);
    }
    r
}

/// Whether `needle` occurs at position `at` of `hay`.
fn occurs_at(hay: &Vec<char>, needle: &Vec<char>, at: usize) -> (r: bool)
    requires
        at + needle@.len() <= hay@.len(),
    ensures
        r == (hay@.subrange(at as int, at + needle@.len()) == needle@),
{
    let mut j: usize = 0;
    while j < needle.len()
        invariant
            at + needle@.len() <= hay@.len(),
            hay@.len() == hay.len(),
            j <= needle@.len(),
            forall|k: int| 0 <= k < j ==> hay@[at + k] == needle@[k],
        decreases needle.len() - j,
    {
        if hay[at + j] != needle[j] {
            proof {
                let s = hay@.subrange(at as int, at + needle@.len());
                assert(s[j as int] != needle@[j as int]);
            }
            return false;
        }
        j += 1;
    }
    assert(hay@.subrange(at as int, at + needle@.len()) =~= needle@);
    true
}

/// Whether `needle` occurs anywhere in `hay`.
fn contains_run(hay: &Vec<char>, needle: &str) -> (r: bool)
    ensures
        r == occurs(hay@, needle@),
{
    let pat = chars_of(needle);
    let m = pat.len();
    if m > hay.len() {
        proof {
            assert forall|i: int| 0 <= i && i + needle@.len() <= hay@.len() implies #[trigger] hay@.subrange(
                i,
                i + needle@.len(),
            ) != needle@ by {}
        }
        return false;
    }
    if m == 0 {
        assert(hay@.subrange(0, 0 + needle@.len() as int) =~= needle@);
        return true;
    }
    let last = hay.len() - m;
    let mut i: usize = 0;
    while i <= last
        invariant
            pat@ == needle@,
            m == needle@.len(),
            last + m == hay@.len(),
            m >= 1,
            hay@.len() == hay.len(),
            forall|k: int| 0 <= k < i ==> #[trigger] hay@.subrange(k, k + needle@.len()) != needle@,
        decreases last + 1 - i,
    {
        if occurs_at(hay, &pat, i) {
            assert(hay@.subrange(i as int, i + needle@.len()) == needle@);
            return true;
        }
        i += 1;
    }
    proof {
        assert forall|k: int| 0 <= k && k + needle@.len() <= hay@.len() implies #[trigger] hay@.subrange(
            k,
            k + needle@.len(),
        ) != needle@ by {
            assert(k < i);
        }
    }
    false
}

/// The characters of `s`, unchanged.
fn chars_of(s: &str) -> (r: Vec<char>)
    ensures
        r@ == s@,
{
    let n = s.unicode_len();
    let mut r: Vec<char> = Vec::new();
    let mut i: usize = 0;
    while i < n
        invariant
            n == s@.len(),
            i <= n,
            r@ == s@.take(i as int),
        decreases n - i,
    {
        r.push(s.get_char(i));
        proof {
            assert(r@ =~= s@.take(i + 1));
        }
        i += 1;
    }
    proof {
        assert(s@.take(n as int) =~= s@);
    }
    r
}

/// Whether `path` names a file that the editor keeps for raster, pixel-edit or paint
/// layers: after turning backslashes into slashes, it contains one of the editor's three
/// layer directory names.
pub fn is_editor_raster_layer_path(path: &str) -> (r: bool)
    ensures
        r == (occurs(slash_normalized(path@), "memstroy_photo_editor_raster_layers"@) || occurs(
            slash_normalized(path@),
            "memstroy_photo_editor_pixel_edits"@,
        ) || occurs(slash_normalized(path@), "memstroy_photo_editor_paint_layers"@)),
{
    let normalized = normalized_chars(path);
    contains_run(&normalized, "memstroy_photo_editor_raster_layers") || contains_run(
        &normalized,
        "memstroy_photo_editor_pixel_edits",
    ) || contains_run(&normalized, "memstroy_photo_editor_paint_layers")
}

/// Whether `path` names a raster or paint layer file, whose transparent pixels the editor
/// keeps when painting: after turning backslashes into slashes, it contains the raster or
/// the paint layer directory name.
pub fn is_alpha_safe_paint_layer_path(path: &str) -> (r: bool)
    ensures
        r == (occurs(slash_normalized(path@), "memstroy_photo_editor_raster_layers"@) || occurs(
            slash_normalized(path@),
            "memstroy_photo_editor_paint_layers"@,
        )),
{
    let normalized = normalized_chars(path);
    contains_run(&normalized, "memstroy_photo_editor_raster_layers") || contains_run(
        &normalized,
        "memstroy_photo_editor_paint_layers",
    )
}

} // verus!
