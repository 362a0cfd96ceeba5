//! The palette store: named colour schemes, read from a document.

use std::collections::BTreeMap;
use vstd::prelude::*;

use crate::color::Color;
use crate::error::RecolourError;
use crate::hex::{hex_color, is_hex_color, parse_hex_color};
use crate::text::{
    compare, is_ascending, lemma_precedes_asymmetric, lemma_precedes_transitive, precedes, Order,
};

verus! {

/// Every text of `colors` is a colour.
pub open spec fn is_palette(colors: Seq<Seq<char>>) -> bool {
    forall|j: int| 0 <= j < colors.len() ==> is_hex_color(#[trigger] colors[j])
}

/// The colours that the texts of `colors` stand for, in their order.
pub open spec fn palette_of(colors: Seq<Seq<char>>) -> Seq<Color> {
    Seq::new(colors.len(), |j: int| hex_color(colors[j]))
}

/// The text number `j` of `colors` is the first that is no colour.
pub open spec fn is_first_refused(colors: Seq<Seq<char>>, j: int) -> bool {
    &&& 0 <= j < colors.len()
    &&& !is_hex_color(colors[j])
    &&& forall|k: int| 0 <= k < j ==> is_hex_color(#[trigger] colors[k])
}

/// Reads the colours of one scheme, in their order. The first text that is
/// no colour fails the whole scheme, and is handed back in the error.
pub fn parse_palette(colors: &Vec<String>) -> (r: Result<Vec<Color>, RecolourError>)
    ensures
        is_palette(colors.deep_view()) ==> (r matches Ok(palette) && palette@ == palette_of(
            colors.deep_view(),
        )),
        !is_palette(colors.deep_view()) ==> (r matches Err(RecolourError::InvalidColor(refused))
            && exists|j: int|
            is_first_refused(colors.deep_view(), j) && refused@
                == #[trigger] colors.deep_view()[j]),
{
    let ghost texts = colors.deep_view();
    let mut palette: Vec<Color> = Vec::new();
    for j in 0..colors.len()
        invariant
            texts == colors.deep_view(),
            palette@.len() == j,
            forall|k: int| 0 <= k < j ==> is_hex_color(#[trigger] texts[k]),
            forall|k: int| 0 <= k < j ==> palette@[k] == hex_color(texts[k]),
    {
        assert(texts[j as int] == colors@[j as int]@);
        match parse_hex_color(colors[j].as_str()) {
            Ok(color) => {
                palette.push(color);
            },
            Err(error) => {
                assert(is_first_refused(texts, j as int));
                return Err(error);
            },
        }
    }
    assert(palette@ =~= palette_of(texts));
    Ok(palette)
}

/// One scheme of the store: its name and its colours.
struct Scheme {
    name: String,
    palette: Vec<Color>,
}

/// The names of `schemes`, in their order.
spec fn names_of(schemes: Seq<Scheme>) -> Seq<Seq<char>> {
    Seq::new(schemes.len(), |i: int| schemes[i].name@)
}

/// `schemes` holds a scheme of the name `name`.
spec fn has(schemes: Seq<Scheme>, name: Seq<char>) -> bool {
    exists|i: int| 0 <= i < schemes.len() && #[trigger] schemes[i].name@ == name
}

/// The place of the scheme of the name `name`.
spec fn place_of(schemes: Seq<Scheme>, name: Seq<char>) -> int {
    choose|i: int| 0 <= i < schemes.len() && #[trigger] schemes[i].name@ == name
}

/// `schemes` as a mapping from names to colours.
spec fn map_of(schemes: Seq<Scheme>) -> Map<Seq<char>, Seq<Color>> {
    Map::new(
        |name: Seq<char>| has(schemes, name),
        |name: Seq<char>| schemes[place_of(schemes, name)].palette@,
    )
}

/// In a store in ascending order no name occurs twice.
proof fn lemma_places_are_unique(schemes: Seq<Scheme>, i: int, j: int)
    requires
        is_ascending(names_of(schemes)),
        0 <= i < schemes.len(),
        0 <= j < schemes.len(),
        schemes[i].name@ == schemes[j].name@,
    ensures
        i == j,
{
    let names = names_of(schemes);
    if i < j {
        assert(precedes(names[i], names[j]));
        lemma_precedes_asymmetric(names[i], names[j]);
    } else if j < i {
        assert(precedes(names[j], names[i]));
        lemma_precedes_asymmetric(names[j], names[i]);
    }
}

/// The scheme at place `i` is the one that the mapping has for its name.
proof fn lemma_map_at(schemes: Seq<Scheme>, i: int)
    requires
        is_ascending(names_of(schemes)),
        0 <= i < schemes.len(),
    ensures
        map_of(schemes).contains_key(schemes[i].name@),
        map_of(schemes)[schemes[i].name@] == schemes[i].palette@,
{
    let name = schemes[i].name@;
    assert(has(schemes, name));
    lemma_places_are_unique(schemes, i, place_of(schemes, name));
}

/// Puts a scheme into a store in ascending order, in place of the scheme of
/// the same name if there is one.
fn put(schemes: &mut Vec<Scheme>, name: String, palette: Vec<Color>)
    requires
        is_ascending(names_of(old(schemes)@)),
    ensures
        is_ascending(names_of(final(schemes)@)),
        map_of(final(schemes)@) == map_of(old(schemes)@).insert(name@, palette@),
{
    let ghost before = schemes@;
    let ghost key = name@;
    let ghost colors = palette@;
    let mut i: usize = 0;
    let mut found = false;
    while i < schemes.len()
        invariant_except_break
            !found,
        invariant
            schemes@ == before,
            i <= schemes@.len(),
            forall|j: int| 0 <= j < i ==> precedes(#[trigger] before[j].name@, key),
            key == name@,
            colors == palette@,
        ensures
            schemes@ == before,
            i <= schemes@.len(),
            key == name@,
            colors == palette@,
            forall|j: int| 0 <= j < i ==> precedes(#[trigger] before[j].name@, key),
            found ==> i < before.len() && before[i as int].name@ == key,
            !found && i < before.len() ==> precedes(key, before[i as int].name@),
        decreases schemes.len() - i,
    {
        match compare(schemes[i].name.as_str(), name.as_str()) {
            Order::Before => {
                i += 1;
            },
            Order::Same => {
                found = true;
                break ;
            },
            Order::After => {
                break ;
            },
        }
    }
    let ghost at = i as int;
    let scheme = Scheme { name, palette };
    if found {
        schemes.set(i, scheme);
    } else {
        schemes.insert(i, scheme);
    }
    proof {
        let after = schemes@;
        let names = names_of(after);
        let old_names = names_of(before);
        assert forall|a: int, b: int| 0 <= a < b < names.len() implies precedes(
            names[a],
            names[b],
        ) by {
            // where each of the two stood before
            let a0 = if found || a < at { a } else { a - 1 };
            let b0 = if found || b < at { b } else { b - 1 };
            if a == at {
                // the new scheme comes before all that follow it
                if found {
                    assert(precedes(old_names[at], old_names[b0]));
                } else {
                    assert(b0 >= at);
                    assert(precedes(key, old_names[at]));
                    if b0 > at {
                        assert(precedes(old_names[at], old_names[b0]));
                        lemma_precedes_transitive(key, old_names[at], old_names[b0]);
                    }
                }
            } else if b == at {
                assert(precedes(before[a0].name@, key));
            } else {
                assert(precedes(old_names[a0], old_names[b0]));
            }
        }
        assert(after[at].name@ == key && after[at].palette@ == colors);
        let wanted = map_of(before).insert(key, colors);
        assert forall|n: Seq<char>| #[trigger]
            map_of(after).contains_key(n) <==> wanted.contains_key(n) by {
            if has(after, n) {
                let p = place_of(after, n);
                if p != at {
                    let q = if found || p < at { p } else { p - 1 };
                    assert(before[q].name@ == n);
                }
            }
            if has(before, n) {
                let q = place_of(before, n);
                let p = if found || q < at { q } else { q + 1 };
                assert(after[p].name@ == n || n == key);
                assert(after[at].name@ == key);
            }
            if n == key {
                assert(after[at].name@ == n);
            }
        }
        assert forall|n: Seq<char>| map_of(after).contains_key(n) implies #[trigger] map_of(
            after,
        )[n] == wanted[n] by {
            let p = place_of(after, n);
            lemma_map_at(after, p);
            if p == at {
            } else {
                let q = if found || p < at { p } else { p - 1 };
                assert(before[q].name@ == n);
                lemma_map_at(before, q);
                if n == key {
                    lemma_places_are_unique(after, p, at);
                }
            }
        }
        assert(map_of(after) =~= wanted);
    }
}

/// The mapping that `entries` make, where every text of theirs is a colour:
/// each name with its colours, the later of two entries of one name.
pub open spec fn catalog_of(entries: Seq<(Seq<char>, Seq<Seq<char>>)>) -> Map<
    Seq<char>,
    Seq<Color>,
>
    decreases entries.len(),
{
    if entries.len() == 0 {
        Map::empty()
    } else {
        catalog_of(entries.drop_last()).insert(entries.last().0, palette_of(entries.last().1))
    }
}

/// Every text of every entry is a colour.
pub open spec fn are_palettes(entries: Seq<(Seq<char>, Seq<Seq<char>>)>) -> bool {
    forall|i: int| 0 <= i < entries.len() ==> is_palette(#[trigger] entries[i].1)
}

/// The entry number `i` is the first with a text that is no colour.
pub open spec fn is_first_refused_entry(
    entries: Seq<(Seq<char>, Seq<Seq<char>>)>,
    i: int,
) -> bool {
    &&& 0 <= i < entries.len()
    &&& !is_palette(entries[i].1)
    &&& forall|k: int| 0 <= k < i ==> is_palette(#[trigger] entries[k].1)
}

/// `r` is what loading `entries` gives: the store of their mapping, or, where
/// a text is no colour, the error that holds the first such text.
pub open spec fn is_loaded_from(
    entries: Seq<(Seq<char>, Seq<Seq<char>>)>,
    r: Result<ColorSchemes, RecolourError>,
) -> bool {
    if are_palettes(entries) {
        r matches Ok(store) && store@ == catalog_of(entries)
    } else {
        r matches Err(RecolourError::InvalidColor(refused)) && exists|i: int, j: int|
            is_first_refused_entry(entries, i) && is_first_refused(entries[i].1, j) && refused@
                == #[trigger] entries[i].1[j]
    }
}

/// What `serde_yml::from_str` makes of a document that is read as a mapping
/// from strings to lists of strings: the entries of the mapping in the order
/// of their names, or `None` where the document is refused.
pub uninterp spec fn yaml_schemes(text: Seq<char>) -> Option<Seq<(Seq<char>, Seq<Seq<char>>)>>;

/// The error of `serde_yml`.
#[verifier::external_type_specification]
#[verifier::external_body]
pub struct ExYamlError(serde_yml::Error);

/// `serde_yml::from_str`, reading a `BTreeMap<String, Vec<String>>`, whose
/// entries are then handed out in the map's own order, that of the keys.
///
/// The contract claims only that the outcome is a function of the text: it
/// gives that outcome the name `yaml_schemes` and says nothing of what it is.
#[verifier::external_body]
fn parse_yaml(text: &str) -> (r: Result<Vec<(String, Vec<String>)>, serde_yml::Error>)
    ensures
        r matches Ok(entries) ==> yaml_schemes(text@) == Some(entries.deep_view()),
        r is Err ==> yaml_schemes(text@) is None,
{
    let schemes: BTreeMap<String, Vec<String>> = serde_yml::from_str(text)?;
    Ok(schemes.into_iter().collect())
}

/// `to_string` of a `serde_yml::Error`: the parser's account of what is wrong
/// with a document. Nothing is claimed of the text.
#[verifier::external_body]
fn yaml_error_message(error: &serde_yml::Error) -> String {
    error.to_string()
}

/// The catalogue of colour schemes: a mapping from names to palettes. It is
/// made once and never changed.
pub struct ColorSchemes {
    schemes: Vec<Scheme>,
}

impl View for ColorSchemes {
    type V = Map<Seq<char>, Seq<Color>>;

    closed spec fn view(&self) -> Map<Seq<char>, Seq<Color>> {
        map_of(self.schemes@)
    }
}

impl ColorSchemes {
    #[verifier::type_invariant]
    spec fn inv(self) -> bool {
        is_ascending(names_of(self.schemes@))
    }

    /// Reads the catalogue from a document in YAML that maps each scheme's
    /// name to the list of its colours. A document that is no such mapping
    /// is refused as a whole, and so is one with a text that is no colour.
    pub fn new(text: &str) -> (r: Result<ColorSchemes, RecolourError>)
        ensures
            yaml_schemes(text@) is None ==> r matches Err(RecolourError::Parse(_)),
            yaml_schemes(text@) matches Some(entries) ==> is_loaded_from(entries, r),
    {
        match parse_yaml(text) {
            Ok(entries) => ColorSchemes::from_entries(&entries),
            Err(error) => Err(RecolourError::Parse(yaml_error_message(&error))),
        }
    }

    /// Makes the catalogue of `entries`, each a name with the texts of its
    /// colours. Of two entries of one name the later stays. The first text
    /// that is no colour fails the whole load.
    pub fn from_entries(entries: &Vec<(String, Vec<String>)>) -> (r: Result<
        ColorSchemes,
        RecolourError,
    >)
        ensures
            is_loaded_from(entries.deep_view(), r),
    {
        let ghost all = entries.deep_view();
        let mut schemes: Vec<Scheme> = Vec::new();
        assert(map_of(schemes@) =~= catalog_of(all.take(0)));
        for i in 0..entries.len()
            invariant
                all == entries.deep_view(),
                is_ascending(names_of(schemes@)),
                map_of(schemes@) == catalog_of(all.take(i as int)),
                forall|k: int| 0 <= k < i ==> is_palette(#[trigger] all[k].1),
        {
            let entry = &entries[i];
            assert(all[i as int] == (entry.0@, entry.1.deep_view()));
            assert(all.take(i + 1).drop_last() =~= all.take(i as int));
            match parse_palette(&entry.1) {
                Ok(palette) => {
                    put(&mut schemes, entry.0.clone(), palette);
                },
                Err(error) => {
                    assert(is_first_refused_entry(all, i as int));
                    return Err(error);
                },
            }
        }
        assert(all.take(entries.len() as int) =~= all);
        Ok(ColorSchemes { schemes })
    }

    /// The palette of the scheme of the given name. The name is matched as
    /// it is written; a name that the catalogue does not hold is refused.
    pub fn get_scheme(&self, scheme_name: &str) -> (r: Result<Vec<Color>, RecolourError>)
        ensures
            self@.contains_key(scheme_name@) ==> (r matches Ok(palette) && palette@
                == self@[scheme_name@]),
            !self@.contains_key(scheme_name@) ==> (r matches Err(RecolourError::UnknownScheme(name))
                && name@ == scheme_name@),
    {
        proof {
            use_type_invariant(self);
        }
        for i in 0..self.schemes.len()
            invariant
                is_ascending(names_of(self.schemes@)),
                forall|j: int| 0 <= j < i ==> #[trigger] self.schemes@[j].name@ != scheme_name@,
        {
            match compare(self.schemes[i].name.as_str(), scheme_name) {
                Order::Same => {
                    proof {
                        lemma_map_at(self.schemes@, i as int);
                    }
                    let palette = self.schemes[i].palette.clone();
                    assert(palette@ =~= self.schemes@[i as int].palette@);
                    return Ok(palette);
                },
                _ => {},
            }
        }
        Err(RecolourError::UnknownScheme(scheme_name.to_owned()))
    }

    /// The names of all schemes, in ascending lexicographic order.
    pub fn list_schemes(&self) -> (names: Vec<String>)
        ensures
            is_ascending(names.deep_view()),
            forall|name: Seq<char>|
                self@.contains_key(name) <==> #[trigger] names.deep_view().contains(name),
    {
        proof {
            use_type_invariant(self);
        }
        let mut names: Vec<String> = Vec::new();
        for i in 0..self.schemes.len()
            invariant
                names@.len() == i,
                forall|j: int| 0 <= j < i ==> #[trigger] names@[j]@ == self.schemes@[j].name@,
        {
            names.push(self.schemes[i].name.clone());
        }
        proof {
            let listed = names.deep_view();
            assert(listed =~= names_of(self.schemes@));
            assert forall|name: Seq<char>| self@.contains_key(name) <==> #[trigger] listed.contains(
                name,
            ) by {
                if has(self.schemes@, name) {
                    let p = place_of(self.schemes@, name);
                    assert(listed[p] == name);
                }
                if listed.contains(name) {
                    let p = choose|p: int| 0 <= p < listed.len() && listed[p] == name;
                    assert(self.schemes@[p].name@ == name);
                }
            }
        }
        names
    }
}

} // verus!
