//! Which terminal face a cell is drawn with, how a face variant is named,
//! and which of the system's sorted fallback fonts get registered.

use vstd::prelude::*;

verus! {

/// Which of the four terminal faces a glyph is drawn with.
#[derive(Clone, Copy, PartialEq, Eq, Hash, Debug, Structural)]
pub enum Face {
    Normal,
    Bold,
    Italic,
    BoldItalic,
}

impl Face {
    pub fn new(bold: bool, italic: bool) -> (face: Self)
        ensures
            face == (if bold && italic {
                Face::BoldItalic
            } else if bold {
                Face::Bold
            } else if italic {
                Face::Italic
            } else {
                Face::Normal
            }),
    {
        match (bold, italic) {
            (true, true) => Self::BoldItalic,
            (true, false) => Self::Bold,
            (false, true) => Self::Italic,
            (false, false) => Self::Normal,
        }
    }
}

/// One of the four faces a font family is resolved for.
#[derive(Clone, Copy, PartialEq, Eq, Debug, Structural)]
pub enum Variant {
    Normal,
    Bold,
    Italic,
    BoldItalic,
}

pub open spec fn spec_variant_label(variant: Variant) -> Seq<char> {
    match variant {
        Variant::Normal => "regular"@,
        Variant::Bold => "bold"@,
        Variant::Italic => "italic"@,
        Variant::BoldItalic => "bold italic"@,
    }
}

impl Variant {
    /// How log lines name the variant.
    pub fn label(self) -> (label: &'static str)
        ensures
            label@ == spec_variant_label(self),
    {
        match self {
            Variant::Normal => "regular",
            Variant::Bold => "bold",
            Variant::Italic => "italic",
            Variant::BoldItalic => "bold italic",
        }
    }
}

/// One entry of the font matcher's sorted list: the file it names, if any,
/// and the face index it reports, if any.
#[derive(Clone, Debug)]
pub struct SortedFont {
    pub path: Option<String>,
    pub face_index: Option<i32>,
}

/// A fallback face to register: its file and which face inside it.
#[derive(Clone, Debug)]
pub struct FallbackFace {
    pub path: String,
    pub face_index: u32,
}

/// Whether `skip` holds `path`.
pub open spec fn skipped(skip: Seq<Seq<char>>, path: Seq<char>) -> bool {
    exists|i: int| 0 <= i < skip.len() && skip[i] == path
}

/// The face index a matcher entry gets: absent or negative means the first.
pub open spec fn spec_face_index(raw: Option<i32>) -> u32 {
    match raw {
        Some(v) if v > 0 => v as u32,
        _ => 0,
    }
}

/// The fallbacks drawn from the first `n` sorted entries, in match order:
/// entries without a file or with a file already in use are passed over,
/// and collection stops once `limit` are chosen.
pub open spec fn spec_fallbacks(
    sorted: Seq<SortedFont>,
    skip: Seq<Seq<char>>,
    limit: nat,
    n: nat,
) -> Seq<(Seq<char>, u32)>
    decreases n,
{
    if n == 0 {
        Seq::empty()
    } else {
        let before = spec_fallbacks(sorted, skip, limit, (n - 1) as nat);
        let entry = sorted[n - 1];
        if before.len() >= limit {
            before
        } else {
            match entry.path {
                Some(path) => if skipped(skip, path@) {
                    before
                } else {
                    before.push((path@, spec_face_index(entry.face_index)))
                },
                None => before,
            }
        }
    }
}

/// Whether `skip` holds `path`.
fn contains_path(skip: &Vec<String>, path: &String) -> (found: bool)
    ensures
        found == skipped(skip@.map_values(|s: String| s@), path@),
{
    let ghost views = skip@.map_values(|s: String| s@);
    let mut i: usize = 0;
    while i < skip.len()
        invariant
            i <= skip.len(),
            views == skip@.map_values(|s: String| s@),
            forall|k: int| 0 <= k < i ==> views[k] != path@,
        decreases skip.len() - i,
    {
        if skip[i] == *path {
            assert(views[i as int] == path@);
            return true;
        }
        i += 1;
    }
    false
}

/// The trimmed sort's fallbacks worth registering, at most `limit`, leaving
/// out every file that already backs a face.
pub fn select_fallbacks(sorted: &Vec<SortedFont>, skip: &Vec<String>, limit: usize) -> (out: Vec<
    FallbackFace,
>)
    ensures
        out@.map_values(|f: FallbackFace| (f.path@, f.face_index)) == spec_fallbacks(
            sorted@,
            skip@.map_values(|s: String| s@),
            limit as nat,
            sorted.len() as nat,
        ),
{
    let ghost views = skip@.map_values(|s: String| s@);
    let mut out: Vec<FallbackFace> = Vec::new();
    let mut i: usize = 0;
    while i < sorted.len()
        invariant
            i <= sorted.len(),
            views == skip@.map_values(|s: String| s@),
            out@.map_values(|f: FallbackFace| (f.path@, f.face_index)) == spec_fallbacks(
                sorted@,
                views,
                limit as nat,
                i as nat,
            ),
        decreases sorted.len() - i,
    {
        let ghost before = out@;
        if out.len() >= limit {
            assert(spec_fallbacks(sorted@, views, limit as nat, (i + 1) as nat) == spec_fallbacks(
                sorted@,
                views,
                limit as nat,
                i as nat,
            ));
            assert forall|j: nat| i < j <= sorted.len() implies spec_fallbacks(
                sorted@,
                views,
                limit as nat,
                j,
            ) == spec_fallbacks(sorted@, views, limit as nat, i as nat) by {
                lemma_fallbacks_saturated(sorted@, views, limit as nat, i as nat, j);
            }
            assert(spec_fallbacks(sorted@, views, limit as nat, sorted.len() as nat)
                == spec_fallbacks(sorted@, views, limit as nat, i as nat));
            return out;
        }
        match &sorted[i].path {
            Some(path) => {
                if !contains_path(skip, path) {
                    let face_index = match sorted[i].face_index {
                        Some(v) => if v > 0 {
                            v as u32
                        } else {
                            0
                        },
                        None => 0,
                    };
                    out.push(FallbackFace { path: path.clone(), face_index });
                    assert(out@.map_values(|f: FallbackFace| (f.path@, f.face_index)) =~= before.map_values(
                        |f: FallbackFace| (f.path@, f.face_index),
                    ).push((path@, face_index)));
                }
            },
            None => {},
        }
        i += 1;
    }
    out
}

proof fn lemma_fallbacks_saturated(
    sorted: Seq<SortedFont>,
    skip: Seq<Seq<char>>,
    limit: nat,
    i: nat,
    j: nat,
)
    requires
        i <= j <= sorted.len(),
        spec_fallbacks(sorted, skip, limit, i).len() >= limit,
    ensures
        spec_fallbacks(sorted, skip, limit, j) == spec_fallbacks(sorted, skip, limit, i),
    decreases j - i,
{
    if j > i {
        lemma_fallbacks_saturated(sorted, skip, limit, i, (j - 1) as nat);
    }
}

/// At most this many automatic fallback faces per variant: the trimmed sort
/// tops out at a few dozen on a typical system, and this bounds startup
/// memory when hundreds of fonts are installed.
pub const MAX_FALLBACK_FACES: usize = 32;

/// The id of the last face registered for `path`, if any: a later
/// registration of the same file replaces the earlier one.
pub open spec fn last_id(ids: Seq<(Seq<char>, Seq<char>)>, path: Seq<char>) -> Option<Seq<char>>
    decreases ids.len(),
{
    if ids.len() == 0 {
        None
    } else if ids.last().0 == path {
        Some(ids.last().1)
    } else {
        last_id(ids.drop_last(), path)
    }
}

/// The font id a fallback face gets: numbered by how many faces were
/// registered before it.
pub open spec fn spec_fallback_id(font_count: nat) -> Seq<char> {
    "alacritree_fallback_"@ + crate::text::dec_digits(font_count)
}

/// What to do with a resolved user fallback file.
#[derive(Debug, PartialEq, Eq)]
pub enum UserStep {
    /// The file already backs this font id: add the id to the variant's
    /// families, without loading the file again.
    Reuse(String),
    /// The file is a primary face, which sits ahead of every fallback
    /// already.
    Skip,
    /// Load the file and register it.
    Load,
}

/// Bookkeeping shared by all fallback registration within one install:
/// which files already back a font, which font id serves each file, and
/// which user entries have already been warned about.
pub struct FallbackBook {
    loaded_paths: Vec<String>,
    ids_by_path: Vec<(String, String)>,
    warned_entries: Vec<String>,
}

impl FallbackBook {
    /// The files that already back a font.
    pub closed spec fn loaded(&self) -> Seq<Seq<char>> {
        self.loaded_paths@.map_values(|p: String| p@)
    }

    /// Which font id serves each file, in registration order.
    pub closed spec fn ids(&self) -> Seq<(Seq<char>, Seq<char>)> {
        self.ids_by_path@.map_values(|e: (String, String)| (e.0@, e.1@))
    }

    /// The user entries already warned about.
    pub closed spec fn warned(&self) -> Seq<Seq<char>> {
        self.warned_entries@.map_values(|e: String| e@)
    }

    pub open spec fn is_loaded(&self, path: Seq<char>) -> bool {
        skipped(self.loaded(), path)
    }

    pub open spec fn id_for(&self, path: Seq<char>) -> Option<Seq<char>> {
        last_id(self.ids(), path)
    }

    pub open spec fn has_warned(&self, entry: Seq<char>) -> bool {
        skipped(self.warned(), entry)
    }

    pub fn new() -> (book: Self)
        ensures
            forall|p: Seq<char>| !book.is_loaded(p) && book.id_for(p) is None && !book.has_warned(p),
    {
        let book = FallbackBook {
            loaded_paths: Vec::new(),
            ids_by_path: Vec::new(),
            warned_entries: Vec::new(),
        };
        assert(book.ids() =~= Seq::<(Seq<char>, Seq<char>)>::empty());
        book
    }

    /// The files that already back a font, for leaving them out of the
    /// automatic chain.
    pub fn loaded_paths(&self) -> (paths: &Vec<String>)
        ensures
            paths@.map_values(|p: String| p@) == self.loaded(),
    {
        &self.loaded_paths
    }

    /// Record that `path` backs a primary face.
    pub fn mark_loaded(&mut self, path: String)
        ensures
            forall|p: Seq<char>| #[trigger] final(self).is_loaded(p) == (old(self).is_loaded(p) || p == path@),
            final(self).ids() == old(self).ids(),
            final(self).warned() == old(self).warned(),
    {
        let ghost before = self.loaded();
        let ghost added = path@;
        self.loaded_paths.push(path);
        assert(self.loaded() =~= before.push(added));
        assert forall|p: Seq<char>| #[trigger] self.is_loaded(p) == (skipped(before, p) || p == added) by {
            if skipped(before, p) {
                let i = choose|i: int| 0 <= i < before.len() && before[i] == p;
                assert(self.loaded()[i] == p);
            }
            if self.is_loaded(p) && p != added {
                let i = choose|i: int| 0 <= i < self.loaded().len() && self.loaded()[i] == p;
                assert(before[i] == p);
            }
            if p == added {
                assert(self.loaded()[before.len() as int] == p);
            }
        }
    }

    /// Whether to warn about a user entry that resolved to nothing: only the
    /// first time it fails.
    pub fn warn_once(&mut self, entry: &String) -> (warn: bool)
        ensures
            warn == !old(self).has_warned(entry@),
            forall|e: Seq<char>| #[trigger] final(self).has_warned(e) == (old(self).has_warned(e) || e == entry@),
            final(self).loaded() == old(self).loaded(),
            final(self).ids() == old(self).ids(),
    {
        let ghost before = self.warned();
        let known = contains_path(&self.warned_entries, entry);
        if known {
            return false;
        }
        self.warned_entries.push(entry.clone());
        assert(self.warned() =~= before.push(entry@));
        assert forall|e: Seq<char>| #[trigger] self.has_warned(e) == (skipped(before, e) || e == entry@) by {
            if skipped(before, e) {
                let i = choose|i: int| 0 <= i < before.len() && before[i] == e;
                assert(self.warned()[i] == e);
            }
            if self.has_warned(e) && e != entry@ {
                let i = choose|i: int| 0 <= i < self.warned().len() && self.warned()[i] == e;
                assert(before[i] == e);
            }
            if e == entry@ {
                assert(self.warned()[before.len() as int] == e);
            }
        }
        true
    }

    /// What a resolved user fallback file needs: a file that already backs
    /// a font id is reused, a primary face is skipped, anything else is
    /// loaded.
    pub fn user_step(&self, path: &String) -> (step: UserStep)
        ensures
            match self.id_for(path@) {
                Some(id) => step matches UserStep::Reuse(i) && i@ == id,
                None => if self.is_loaded(path@) {
                    step == UserStep::Skip
                } else {
                    step == UserStep::Load
                },
            },
    {
        let ghost ids = self.ids();
        let mut k = self.ids_by_path.len();
        assert(ids.take(k as int) =~= ids);
        while k > 0
            invariant
                k <= self.ids_by_path.len(),
                ids == self.ids(),
                last_id(ids, path@) == last_id(ids.take(k as int), path@),
            decreases k,
        {
            assert(ids.take(k as int).drop_last() =~= ids.take(k - 1));
            assert(ids.take(k as int).last() == ids[k - 1]);
            if self.ids_by_path[k - 1].0 == *path {
                return UserStep::Reuse(self.ids_by_path[k - 1].1.clone());
            }
            k -= 1;
        }
        assert(ids.take(0) =~= Seq::<(Seq<char>, Seq<char>)>::empty());
        if contains_path(&self.loaded_paths, path) {
            UserStep::Skip
        } else {
            UserStep::Load
        }
    }

    /// Register the file at `path`, loaded as font number `font_count`:
    /// returns its id, and from now on the file counts as loaded and is
    /// served by that id.
    pub fn register(&mut self, path: String, font_count: usize) -> (id: String)
        ensures
            id@ == spec_fallback_id(font_count as nat),
            forall|p: Seq<char>| #[trigger] final(self).is_loaded(p) == (old(self).is_loaded(p) || p == path@),
            final(self).id_for(path@) == Some(id@),
            forall|p: Seq<char>| p != path@ ==> #[trigger] final(self).id_for(p) == old(self).id_for(p),
            final(self).warned() == old(self).warned(),
    {
        let mut chars: Vec<char> = Vec::new();
        crate::text::push_str(&mut chars, "alacritree_fallback_");
        crate::text::push_decimal(&mut chars, font_count as u128);
        proof {
            reveal_strlit("alacritree_fallback_");
        }
        let id = crate::text::string_of(&chars);
        let id_copy = id.clone();
        let path_copy = path.clone();
        let ghost before_ids = self.ids();
        let ghost before = *self;
        self.mark_loaded(path);
        let ghost mid = *self;
        self.ids_by_path.push((path_copy, id_copy));
        assert(self.loaded() == mid.loaded());
        assert forall|p: Seq<char>| #[trigger] self.is_loaded(p) == (before.is_loaded(p) || p
            == path_copy@) by {
            assert(mid.is_loaded(p) == (before.is_loaded(p) || p == path_copy@));
        }
        assert(self.ids() =~= before_ids.push((path_copy@, id_copy@)));
        assert forall|p: Seq<char>| p != path_copy@ implies #[trigger] self.id_for(p) == last_id(before_ids, p) by {
            assert(self.ids().drop_last() =~= before_ids);
        }
        id
    }
}

} // verus!
