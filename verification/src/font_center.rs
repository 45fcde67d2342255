//! The registry of fonts available to the interface.

use crate::str_map::StrMap;
use vstd::prelude::*;

verus! {

/// Identifier of the Noto Sans SC font.
pub const FONT_NOTO_SANS_SC: &'static str = "noto_sans_sc";

/// Where a font's data comes from.
#[derive(Clone, Debug)]
pub enum FontSource {
    /// Built into the program.
    Embedded,
    /// Read from this file at run time.
    FileSystem(String),
}

/// What is known of one font.
#[derive(Clone, Debug)]
pub struct FontMeta {
    /// Display name.
    pub name: String,
    /// Where its data comes from.
    pub source: FontSource,
}

/// The registered fonts, by identifier.
pub struct FontRegistry {
    fonts: StrMap<FontMeta>,
}

impl FontRegistry {
    #[verifier::type_invariant]
    spec fn inv(self) -> bool {
        self.fonts.wf()
    }

    /// The registered fonts, by identifier.
    pub closed spec fn registered(&self) -> Map<Seq<char>, FontMeta> {
        self.fonts.map()
    }

    /// A registry with no font.
    pub fn new() -> (r: Self)
        ensures
            r.registered() == Map::<Seq<char>, FontMeta>::empty(),
    {
        FontRegistry { fonts: StrMap::new() }
    }

    /// Whether a font named `name` is registered.
    pub fn has(&self, name: &str) -> (r: bool)
        ensures
            r == self.registered().dom().contains(name@),
    {
        proof {
            use_type_invariant(self);
        }
        self.fonts.contains_key(name)
    }

    /// What is known of the font named `name`, if it is registered.
    pub fn get(&self, name: &str) -> (r: Option<&FontMeta>)
        ensures
            match r {
                Some(m) => self.registered().dom().contains(name@) && *m == self.registered()[name@],
                None => !self.registered().dom().contains(name@),
            },
    {
        proof {
            use_type_invariant(self);
        }
        self.fonts.get(name)
    }

    /// The names of the registered fonts, each once.
    pub fn list(&self) -> (r: Vec<&str>)
        ensures
            r@.map_values(|s: &str| s@).no_duplicates(),
            r@.map_values(|s: &str| s@).to_set() == self.registered().dom(),
    {
        proof {
            use_type_invariant(self);
        }
        self.fonts.key_strs()
    }

    /// Registers the font `name` with `meta`, replacing what was registered under it.
    pub fn register(&mut self, name: String, meta: FontMeta)
        ensures
            final(self).registered() == old(self).registered().insert(name@, meta),
    {
        proof {
            use_type_invariant(&*self);
        }
        let mut fonts = StrMap::new();
        std::mem::swap(&mut fonts, &mut self.fonts);
        let _ = fonts.insert(name, meta);
        self.fonts = fonts;
    }
}

impl Default for FontRegistry {
    fn default() -> (r: Self)
        ensures
            r.registered() == Map::<Seq<char>, FontMeta>::empty(),
    {
        FontRegistry::new()
    }
}

} // verus!
