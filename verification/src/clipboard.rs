//! Turning a clipboard bitmap into a PNG file something else can open, and
//! keeping the directory of such files bounded.
//!
//! Nothing here touches the clipboard or the disk: it checks and encodes
//! pixels, names files, and decides which generated files a sweep removes.

use vstd::prelude::*;
use crate::text::chars_of;

verus! {

broadcast use vstd::string::group_string_axioms;

/// A clipboard owner can advertise any dimensions it likes, and encoding
/// runs on the UI thread during a keystroke.  64 MP is far past any
/// screenshot.
pub const MAX_PIXELS: usize = 67108864;

/// A clipboard bitmap: RGBA, eight bits a channel, rows top to bottom.
#[derive(Debug, Clone)]
pub struct Image {
    pub width: usize,
    pub height: usize,
    pub bytes: Vec<u8>,
}

#[verifier::external_type_specification]
#[verifier::external_body]
pub struct ExEncodingError(png::EncodingError);

#[derive(Debug)]
pub enum EncodeError {
    TooLarge { pixels: usize },
    Inconsistent { expected: usize, actual: usize },
    Encoding(png::EncodingError),
}

/// The PNG that png's encoder writes for an RGBA, eight-bit image of these
/// dimensions and pixels, with fast compression.
pub uninterp spec fn png_rgba8(width: u32, height: u32, pixels: Seq<u8>) -> Seq<u8>;

/// Runs png's `Encoder` (`new`, `set_color(Rgba)`, `set_depth(Eight)`,
/// `set_compression(Fast)`, `write_header`, `write_image_data`, `finish`)
/// into a byte vector.  The encoder computes the image's byte count in
/// unchecked `usize` arithmetic, so that count has to fit.  Claimed: a
/// success holds the encoding of exactly these arguments; a zero width or
/// height fails at `write_header`; a pixel buffer that is not four bytes a
/// pixel fails at `write_image_data`; anything else succeeds, because with
/// sequence validation off (the default) and a byte vector to write into
/// nothing else in the pipeline can fail.
#[verifier::external_body]
fn encode_rgba8(width: u32, height: u32, pixels: &[u8]) -> (r: Result<Vec<u8>, png::EncodingError>)
    requires
        4 * width * height <= usize::MAX,
    ensures
        r matches Ok(v) ==> v@ == png_rgba8(width, height, pixels@),
        width == 0 || height == 0 ==> r is Err,
        pixels.len() != 4 * width * height ==> r is Err,
        width > 0 && height > 0 && pixels.len() == 4 * width * height ==> r is Ok,
{
    let mut out = Vec::new();
    let mut encoder = png::Encoder::new(&mut out, width, height);
    encoder.set_color(png::ColorType::Rgba);
    encoder.set_depth(png::BitDepth::Eight);
    encoder.set_compression(png::Compression::Fast);
    let mut writer = encoder.write_header()?;
    writer.write_image_data(pixels)?;
    writer.finish()?;
    Ok(out)
}

/// png's `Display` of an encoding error.
#[verifier::external_body]
fn encoding_error_text(e: &png::EncodingError) -> String {
    format!("{e}")
}

/// `a * b`, or the largest `usize` where that overflows.
pub open spec fn saturating_product(a: usize, b: usize) -> usize {
    if a * b > usize::MAX {
        usize::MAX
    } else {
        (a * b) as usize
    }
}

fn saturating_mul(a: usize, b: usize) -> (p: usize)
    ensures
        p == saturating_product(a, b),
{
    match a.checked_mul(b) {
        Some(p) => p,
        None => usize::MAX,
    }
}

/// Encode `image` as a PNG.  Dimensions past the pixel limit are refused
/// before anything is allocated, then a byte count that disagrees with the
/// dimensions; what is left goes to the encoder, at fast compression, which
/// buys latency on a keypress at the cost of a larger file nothing keeps.
pub fn encode_png(image: &Image) -> (r: Result<Vec<u8>, EncodeError>)
    ensures
        ({
            let pixels = saturating_product(image.width, image.height);
            let expected = saturating_product(pixels, 4);
            &&& pixels > MAX_PIXELS ==> (r matches Err(EncodeError::TooLarge { pixels: p })
                && p == pixels)
            &&& pixels <= MAX_PIXELS && image.bytes.len() != expected ==> (r matches Err(
                EncodeError::Inconsistent { expected: e, actual: a },
            ) && e == expected && a == image.bytes.len())
            &&& pixels <= MAX_PIXELS && image.bytes.len() == expected ==> {
                &&& r matches Ok(v) ==> v@ == png_rgba8(
                    image.width as u32,
                    image.height as u32,
                    image.bytes@,
                )
                &&& r matches Err(e) ==> e is Encoding
                &&& (image.width == 0 || image.height == 0) <==> r is Err
            }
        }),
{
    let pixels = saturating_mul(image.width, image.height);
    if pixels > MAX_PIXELS {
        return Err(EncodeError::TooLarge { pixels });
    }
    let expected = saturating_mul(pixels, 4);
    if image.bytes.len() != expected {
        return Err(EncodeError::Inconsistent { expected, actual: image.bytes.len() });
    }
    let ghost (w, h) = (image.width as int, image.height as int);
    if image.width != 0 && image.height != 0 {
        assert(w <= w * h && h <= w * h) by (nonlinear_arith)
            requires
                w >= 1,
                h >= 1,
        ;
        assert(image.width as u32 == image.width && image.height as u32 == image.height);
        assert(4 * (image.width as u32) * (image.height as u32) == 4 * (w * h)) by (nonlinear_arith)
            requires
                image.width as u32 == w,
                image.height as u32 == h,
        ;
    } else {
        assert(image.width as u32 == 0 || image.height as u32 == 0);
        assert(4 * (image.width as u32) * (image.height as u32) == 0) by (nonlinear_arith)
            requires
                image.width as u32 == 0 || image.height as u32 == 0,
        ;
    }
    match encode_rgba8(image.width as u32, image.height as u32, image.bytes.as_slice()) {
        Ok(png) => Ok(png),
        Err(e) => Err(EncodeError::Encoding(e)),
    }
}

/// What `EncodeError` says of itself.
pub open spec fn spec_too_large_text(pixels: nat) -> Seq<char> {
    crate::text::dec_digits(pixels) + " pixels is past the 67108864 limit"@
}

pub open spec fn spec_inconsistent_text(expected: nat, actual: nat) -> Seq<char> {
    "dimensions imply "@ + crate::text::dec_digits(expected) + " bytes, got "@
        + crate::text::dec_digits(actual)
}

impl EncodeError {
    /// The error as a sentence.
    pub fn message(&self) -> (text: String)
        ensures
            self matches EncodeError::TooLarge { pixels } ==> text@ == spec_too_large_text(
                pixels as nat,
            ),
            self matches EncodeError::Inconsistent { expected, actual } ==> text@
                == spec_inconsistent_text(expected as nat, actual as nat),
    {
        match self {
            EncodeError::TooLarge { pixels } => {
                let mut out: Vec<char> = Vec::new();
                crate::text::push_decimal(&mut out, *pixels as u128);
                crate::text::push_str(&mut out, " pixels is past the 67108864 limit");
                crate::text::string_of(&out)
            },
            EncodeError::Inconsistent { expected, actual } => {
                let mut out: Vec<char> = Vec::new();
                crate::text::push_str(&mut out, "dimensions imply ");
                crate::text::push_decimal(&mut out, *expected as u128);
                crate::text::push_str(&mut out, " bytes, got ");
                crate::text::push_decimal(&mut out, *actual as u128);
                crate::text::string_of(&out)
            },
            EncodeError::Encoding(e) => encoding_error_text(e),
        }
    }
}

/// The lower-case hex digit for `d`.
pub open spec fn hex_char(d: nat) -> char {
    if d < 10 {
        (48 + d) as char
    } else {
        (87 + d) as char
    }
}

/// `n` as exactly `width` lower-case hex digits, most significant first.
pub open spec fn hex_fixed(n: nat, width: nat) -> Seq<char>
    decreases width,
{
    if width == 0 {
        Seq::empty()
    } else {
        hex_fixed(n / 16, (width - 1) as nat).push(hex_char(n % 16))
    }
}

/// The generated name for PNG bytes with this digest: content-addressed,
/// so equal bytes land on one file.
pub open spec fn spec_file_name(digest: u64) -> Seq<char> {
    "clipboard-"@ + hex_fixed(digest as nat, 16) + ".png"@
}

/// Whether `c` is an ASCII hex digit, of either case.
pub open spec fn is_hex_char(c: char) -> bool {
    ('0' <= c && c <= '9') || ('a' <= c && c <= 'f') || ('A' <= c && c <= 'F')
}

/// Whether `name` is one this module generates: `clipboard-`, sixteen hex
/// digits, `.png`.  A half-finished write's `.tmp` name fails this, as does
/// anything a user put in the directory.
pub open spec fn spec_is_generated_name(name: Seq<char>) -> bool {
    &&& name.len() == 30
    &&& name.take(10) == "clipboard-"@
    &&& name.skip(26) == ".png"@
    &&& forall|i: int| 10 <= i < 26 ==> #[trigger] is_hex_char(name[i])
}

fn hex_digit_char(d: u64) -> (c: char)
    requires
        d < 16,
    ensures
        c == hex_char(d as nat),
{
    match d {
        0 => '0',
        1 => '1',
        2 => '2',
        3 => '3',
        4 => '4',
        5 => '5',
        6 => '6',
        7 => '7',
        8 => '8',
        9 => '9',
        10 => 'a',
        11 => 'b',
        12 => 'c',
        13 => 'd',
        14 => 'e',
        _ => 'f',
    }
}

fn push_hex_fixed(out: &mut Vec<char>, n: u64, width: u32)
    ensures
        final(out)@ == old(out)@ + hex_fixed(n as nat, width as nat),
    decreases width,
{
    if width == 0 {
        assert(old(out)@ + hex_fixed(n as nat, 0) =~= old(out)@);
        return;
    }
    push_hex_fixed(out, n / 16, width - 1);
    out.push(hex_digit_char(n % 16));
    assert(final(out)@ =~= old(out)@ + hex_fixed(n as nat, width as nat));
}

/// The file name for PNG bytes whose digest is `digest`.
pub fn file_name_of_digest(digest: u64) -> (name: String)
    ensures
        name@ == spec_file_name(digest),
{
    let mut out: Vec<char> = Vec::new();
    crate::text::push_str(&mut out, "clipboard-");
    push_hex_fixed(&mut out, digest, 16);
    crate::text::push_str(&mut out, ".png");
    crate::text::string_of(&out)
}

fn hex_char_exec(c: char) -> (hex: bool)
    ensures
        hex == is_hex_char(c),
{
    ('0' <= c && c <= '9') || ('a' <= c && c <= 'f') || ('A' <= c && c <= 'F')
}

/// Whether `name` is one this module generates; only such names are ever
/// swept.
pub fn is_generated_name(name: &str) -> (generated: bool)
    ensures
        generated == spec_is_generated_name(name@),
{
    let v = chars_of(name);
    if v.len() != 30 {
        return false;
    }
    let head = crate::text::copy_range(&v, 0, 10);
    let tail = crate::text::copy_range(&v, 26, 30);
    assert(head@ =~= v@.take(10));
    assert(tail@ =~= v@.skip(26));
    if !crate::text::spells(&head, "clipboard-") || !crate::text::spells(&tail, ".png") {
        return false;
    }
    let mut i: usize = 10;
    while i < 26
        invariant
            10 <= i <= 26,
            v.len() == 30,
            v@ == name@,
            forall|k: int| 10 <= k < i ==> #[trigger] is_hex_char(v@[k]),
        decreases 26 - i,
    {
        if !hex_char_exec(v[i]) {
            assert(!is_hex_char(name@[i as int]));
            return false;
        }
        i += 1;
    }
    true
}

/// Every name this module generates is one its sweep recognises.
pub proof fn generated_names_are_recognised(digest: u64)
    ensures
        spec_is_generated_name(spec_file_name(digest)),
{
    reveal_strlit("clipboard-");
    reveal_strlit(".png");
    let name = spec_file_name(digest);
    lemma_hex_fixed(digest as nat, 16);
    assert(name.take(10) =~= "clipboard-"@);
    assert(name.skip(26) =~= ".png"@);
    assert forall|i: int| 10 <= i < 26 implies #[trigger] is_hex_char(name[i]) by {
        assert(name[i] == hex_fixed(digest as nat, 16)[i - 10]);
    }
}

proof fn lemma_hex_fixed(n: nat, width: nat)
    ensures
        hex_fixed(n, width).len() == width,
        forall|i: int| 0 <= i < width ==> #[trigger] is_hex_char(hex_fixed(n, width)[i]),
    decreases width,
{
    if width > 0 {
        lemma_hex_fixed(n / 16, (width - 1) as nat);
        let s = hex_fixed(n, width);
        assert forall|i: int| 0 <= i < width implies #[trigger] is_hex_char(s[i]) by {
            if i < width - 1 {
                assert(s[i] == hex_fixed(n / 16, (width - 1) as nat)[i]);
            } else {
                assert(n % 16 < 16);
            }
        }
    }
}

/// One file in the directory being swept, as the sweep sees it.
#[derive(Debug, Clone)]
pub struct SweepEntry {
    pub name: String,
    /// When it was last modified, in nanoseconds from the epoch; nothing
    /// where its age could not be read.  Unranked means unswept.
    pub modified_ns: Option<i128>,
}

/// Whether entry `i` is a sweep candidate: a generated name, not the file
/// just returned, and of known age.
pub open spec fn candidate(entries: Seq<(Seq<char>, Option<i128>)>, in_use: Seq<char>, i: int) -> bool {
    &&& spec_is_generated_name(entries[i].0)
    &&& entries[i].0 != in_use
    &&& entries[i].1 is Some
}

/// Whether candidate `j` ranks ahead of entry `i`: newer, or as new and
/// listed earlier.
pub open spec fn ranks_ahead(
    entries: Seq<(Seq<char>, Option<i128>)>,
    in_use: Seq<char>,
    j: int,
    i: int,
) -> bool {
    &&& candidate(entries, in_use, j)
    &&& {
        let tj = entries[j].1->0;
        let ti = entries[i].1->0;
        tj > ti || (tj == ti && j < i)
    }
}

/// How many of the first `upto` entries rank ahead of entry `i`.
pub open spec fn ahead_count(
    entries: Seq<(Seq<char>, Option<i128>)>,
    in_use: Seq<char>,
    i: int,
    upto: int,
) -> nat
    decreases upto,
{
    if upto <= 0 {
        0
    } else {
        ahead_count(entries, in_use, i, upto - 1) + if ranks_ahead(entries, in_use, upto - 1, i) {
            1nat
        } else {
            0nat
        }
    }
}

/// Whether the sweep removes entry `i`: with a cap of `keep` files, the
/// returned one plus the `keep - 1` newest other generated files stay.
/// Without a cap nothing is removed.
pub open spec fn spec_is_stale(
    entries: Seq<(Seq<char>, Option<i128>)>,
    in_use: Seq<char>,
    cap: Option<usize>,
    i: int,
) -> bool {
    match cap {
        None => false,
        Some(keep) => {
            let others: int = if keep >= 1 { keep - 1 } else { 0 };
            candidate(entries, in_use, i) && ahead_count(entries, in_use, i, entries.len() as int)
                >= others
        },
    }
}

pub open spec fn entry_views(entries: Seq<SweepEntry>) -> Seq<(Seq<char>, Option<i128>)> {
    entries.map_values(|e: SweepEntry| (e.name@, e.modified_ns))
}

fn same_text(a: &str, b: &str) -> (same: bool)
    ensures
        same == (a@ == b@),
{
    let av = chars_of(a);
    crate::text::spells(&av, b)
}

fn is_candidate(entries: &Vec<SweepEntry>, in_use: &str, i: usize) -> (c: bool)
    requires
        i < entries.len(),
    ensures
        c == candidate(entry_views(entries@), in_use@, i as int),
{
    let e = &entries[i];
    is_generated_name(e.name.as_str()) && !same_text(e.name.as_str(), in_use)
        && e.modified_ns.is_some()
}

/// Which entries a sweep removes: the flag at each index says whether that
/// file goes.  Only generated names of known age are ever candidates, the
/// file just returned never is, and with a cap of `keep` the `keep - 1`
/// newest other candidates stay.
pub fn stale_files(entries: &Vec<SweepEntry>, in_use: &str, cap: Option<usize>) -> (stale: Vec<
    bool,
>)
    ensures
        stale.len() == entries.len(),
        forall|i: int|
            0 <= i < entries.len() ==> stale@[i] == spec_is_stale(
                entry_views(entries@),
                in_use@,
                cap,
                i,
            ),
{
    let ghost views = entry_views(entries@);
    let n = entries.len();
    let mut stale: Vec<bool> = Vec::new();
    let mut i: usize = 0;
    while i < n
        invariant
            i <= n == entries.len(),
            views == entry_views(entries@),
            stale.len() == i,
            forall|k: int| 0 <= k < i ==> stale@[k] == spec_is_stale(views, in_use@, cap, k),
        decreases n - i,
    {
        let goes = match cap {
            None => false,
            Some(keep) => {
                if is_candidate(entries, in_use, i) {
                    count_ahead(entries, in_use, i) >= keep.saturating_sub(1)
                } else {
                    false
                }
            },
        };
        stale.push(goes);
        i += 1;
    }
    stale
}

fn count_ahead(entries: &Vec<SweepEntry>, in_use: &str, i: usize) -> (ahead: usize)
    requires
        i < entries.len(),
        candidate(entry_views(entries@), in_use@, i as int),
    ensures
        ahead == ahead_count(entry_views(entries@), in_use@, i as int, entries.len() as int),
{
    let ghost views = entry_views(entries@);
    let n = entries.len();
    let ti = match entries[i].modified_ns {
        Some(t) => t,
        None => 0,
    };
    let mut ahead: usize = 0;
    let mut j: usize = 0;
    while j < n
        invariant
            j <= n == entries.len(),
            i < n,
            views == entry_views(entries@),
            views[i as int].1 == Some(ti),
            ahead == ahead_count(views, in_use@, i as int, j as int),
            ahead <= j,
        decreases n - j,
    {
        if is_candidate(entries, in_use, j) {
            let tj = match entries[j].modified_ns {
                Some(t) => t,
                None => 0,
            };
            if tj > ti || (tj == ti && j < i) {
                ahead += 1;
            }
        }
        j += 1;
    }
    ahead
}

/// The sweep never removes the file it just returned, nor any name it did
/// not generate.
pub proof fn the_sweep_spares_what_it_must(
    entries: Seq<(Seq<char>, Option<i128>)>,
    in_use: Seq<char>,
    cap: Option<usize>,
    i: int,
)
    requires
        0 <= i < entries.len(),
        spec_is_stale(entries, in_use, cap, i),
    ensures
        entries[i].0 != in_use,
        spec_is_generated_name(entries[i].0),
{
}

/// Without a cap, nothing is removed: what makes pointing the directory at
/// a pictures folder safe.
pub proof fn no_cap_deletes_nothing(
    entries: Seq<(Seq<char>, Option<i128>)>,
    in_use: Seq<char>,
    i: int,
)
    ensures
        !spec_is_stale(entries, in_use, None, i),
{
}

proof fn lemma_ahead_count_mono(
    entries: Seq<(Seq<char>, Option<i128>)>,
    in_use: Seq<char>,
    i: int,
    j: int,
    upto: int,
)
    requires
        forall|k: int| 0 <= k < upto && ranks_ahead(entries, in_use, k, j) ==> ranks_ahead(entries, in_use, k, i),
    ensures
        ahead_count(entries, in_use, j, upto) <= ahead_count(entries, in_use, i, upto),
    decreases upto,
{
    if upto > 0 {
        lemma_ahead_count_mono(entries, in_use, i, j, upto - 1);
    }
}

proof fn lemma_ahead_count_strict(
    entries: Seq<(Seq<char>, Option<i128>)>,
    in_use: Seq<char>,
    i: int,
    j: int,
    upto: int,
    witness: int,
)
    requires
        forall|k: int| 0 <= k < upto && ranks_ahead(entries, in_use, k, j) ==> ranks_ahead(entries, in_use, k, i),
        0 <= witness < upto,
        ranks_ahead(entries, in_use, witness, i),
        !ranks_ahead(entries, in_use, witness, j),
    ensures
        ahead_count(entries, in_use, j, upto) < ahead_count(entries, in_use, i, upto),
    decreases upto,
{
    if witness < upto - 1 {
        lemma_ahead_count_strict(entries, in_use, i, j, upto - 1, witness);
    } else {
        lemma_ahead_count_mono(entries, in_use, i, j, upto - 1);
    }
}

/// The sweep removes older files first: every generated file it keeps
/// (other than the one just returned) is newer than every file it removes,
/// or as new and listed earlier.
pub proof fn the_sweep_removes_the_oldest(
    entries: Seq<(Seq<char>, Option<i128>)>,
    in_use: Seq<char>,
    keep: usize,
    kept: int,
    removed: int,
)
    requires
        0 <= kept < entries.len(),
        0 <= removed < entries.len(),
        candidate(entries, in_use, kept),
        !spec_is_stale(entries, in_use, Some(keep), kept),
        spec_is_stale(entries, in_use, Some(keep), removed),
    ensures
        ranks_ahead(entries, in_use, kept, removed),
{
    let n = entries.len() as int;
    if !ranks_ahead(entries, in_use, kept, removed) {
        assert(kept != removed);
        assert(ranks_ahead(entries, in_use, removed, kept));
        assert forall|k: int| 0 <= k < n && ranks_ahead(entries, in_use, k, removed) implies ranks_ahead(
            entries,
            in_use,
            k,
            kept,
        ) by {}
        lemma_ahead_count_strict(entries, in_use, kept, removed, n, removed);
    }
}

/// The generated files a sweep with a cap of `keep` leaves behind, other
/// than the one just returned.
pub open spec fn kept_candidates(
    entries: Seq<(Seq<char>, Option<i128>)>,
    in_use: Seq<char>,
    keep: usize,
) -> Set<int> {
    Set::new(
        |i: int|
            0 <= i < entries.len() && candidate(entries, in_use, i) && !spec_is_stale(
                entries,
                in_use,
                Some(keep),
                i,
            ),
    )
}

/// With a cap of `keep`, at most `keep - 1` generated files stay beside the
/// one just returned, so the directory holds at most `keep` of them.
pub proof fn the_cap_bounds_what_stays(
    entries: Seq<(Seq<char>, Option<i128>)>,
    in_use: Seq<char>,
    keep: usize,
)
    ensures
        kept_candidates(entries, in_use, keep).finite(),
        kept_candidates(entries, in_use, keep).len() <= (if keep >= 1 {
            keep - 1
        } else {
            0
        }),
{
    let n = entries.len() as int;
    let others: int = if keep >= 1 { keep - 1 } else { 0 };
    let kept = kept_candidates(entries, in_use, keep);
    let rank = |i: int| ahead_count(entries, in_use, i, n) as int;
    vstd::set_lib::lemma_int_range(0, n);
    assert(kept.subset_of(vstd::set_lib::set_int_range(0, n)));
    vstd::set_lib::lemma_len_subset(kept, vstd::set_lib::set_int_range(0, n));
    assert(vstd::relations::injective_on(rank, kept)) by {
        assert forall|i: int, j: int| kept.contains(i) && kept.contains(j) && #[trigger] rank(i)
            == #[trigger] rank(j) implies i == j by {
            if i != j {
                if ranks_ahead(entries, in_use, i, j) {
                    assert forall|k: int| 0 <= k < n && ranks_ahead(entries, in_use, k, i) implies ranks_ahead(
                        entries,
                        in_use,
                        k,
                        j,
                    ) by {}
                    lemma_ahead_count_strict(entries, in_use, j, i, n, i);
                } else {
                    assert(ranks_ahead(entries, in_use, j, i));
                    assert forall|k: int| 0 <= k < n && ranks_ahead(entries, in_use, k, j) implies ranks_ahead(
                        entries,
                        in_use,
                        k,
                        i,
                    ) by {}
                    lemma_ahead_count_strict(entries, in_use, i, j, n, j);
                }
            }
        }
    }
    let ranks = kept.map(rank);
    vstd::set_lib::lemma_map_size(kept, ranks, rank);
    vstd::set_lib::lemma_int_range(0, others);
    assert(ranks.subset_of(vstd::set_lib::set_int_range(0, others))) by {
        assert forall|r: int| ranks.contains(r) implies vstd::set_lib::set_int_range(0, others).contains(r) by {
            let i = choose|i: int| kept.contains(i) && rank(i) == r;
        }
    }
    vstd::set_lib::lemma_len_subset(ranks, vstd::set_lib::set_int_range(0, others));
}

} // verus!
