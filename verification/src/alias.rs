//! The alias table: which names the source shell expands, and to what; and
//! how the shell's listing of its aliases is read into one.

use crate::split::{lines, split_lines, texts};
use crate::text::{
    find, find_char, from_chars, is_space, is_whitespace, is_word, slice_of, to_chars,
};
use vstd::hash_map::StringHashMap;
use vstd::prelude::*;

verus! {

/// A name that an alias can have: a single word.
pub open spec fn is_alias_name(name: Seq<char>) -> bool {
    is_word(name)
}

/// `text` without the pair of single quotes around it, where it begins with
/// one and ends with another; `text` itself where it does not.
pub open spec fn unquoted(text: Seq<char>) -> Seq<char> {
    if text.len() >= 2 && text.first() == '\'' && text.last() == '\'' {
        text.subrange(1, text.len() - 1)
    } else {
        text
    }
}

/// What one line of the shell's alias listing binds: the name before the first
/// `=` and the expansion after it, unquoted. A line without `=`, or whose name
/// is no alias name, binds nothing.
pub open spec fn alias_binding(line: Seq<char>) -> Option<(Seq<char>, Seq<char>)> {
    let eq = find(line, '=') as int;
    if eq < line.len() && is_alias_name(line.take(eq)) {
        Some((line.take(eq), unquoted(line.skip(eq + 1))))
    } else {
        None
    }
}

/// The table that the lines of an alias listing build, read from first to
/// last: a later binding of a name replaces an earlier one.
pub open spec fn alias_bindings(listing: Seq<Seq<char>>) -> Map<Seq<char>, Seq<char>>
    decreases listing.len(),
{
    if listing.len() == 0 {
        Map::empty()
    } else {
        let earlier = alias_bindings(listing.drop_last());
        match alias_binding(listing.last()) {
            Some((name, expansion)) => earlier.insert(name, expansion),
            None => earlier,
        }
    }
}

/// Every name in `table` is an alias name.
pub open spec fn names_are_words(table: Map<Seq<char>, Seq<char>>) -> bool {
    forall|name: Seq<char>| table.contains_key(name) ==> is_alias_name(name)
}

/// The names that an alias listing binds are alias names.
pub proof fn lemma_bindings_have_word_names(listing: Seq<Seq<char>>)
    ensures
        names_are_words(alias_bindings(listing)),
    decreases listing.len(),
{
    if listing.len() > 0 {
        lemma_bindings_have_word_names(listing.drop_last());
    }
}

/// Alias names and their expansions. Each name is a single word and has one
/// expansion; an expansion is any text, the empty one included.
pub struct AliasTable {
    map: StringHashMap<String>,
}

impl View for AliasTable {
    type V = Map<Seq<char>, Seq<char>>;

    closed spec fn view(&self) -> Map<Seq<char>, Seq<char>> {
        Map::new(|name: Seq<char>| self.map@.contains_key(name), |name: Seq<char>| self.map@[name]@)
    }
}

impl AliasTable {
    #[verifier::type_invariant]
    pub closed spec fn well_formed(&self) -> bool {
        names_are_words(self@)
    }

    /// The table without any alias.
    pub fn new() -> (table: Self)
        ensures
            table@ == Map::<Seq<char>, Seq<char>>::empty(),
    {
        let table = AliasTable { map: StringHashMap::new() };
        table
    }

    /// Binds `name` to `expansion`, in place of what `name` was bound to
    /// before, and returns `true`; where `name` is no alias name, leaves the
    /// table as it is and returns `false`.
    pub fn insert(&mut self, name: String, expansion: String) -> (bound: bool)
        ensures
            bound == is_alias_name(name@),
            bound ==> final(self)@ == old(self)@.insert(name@, expansion@),
            !bound ==> final(self)@ == old(self)@,
            names_are_words(final(self)@),
    {
        proof {
            use_type_invariant(&*self);
        }
        let chars = to_chars(name.as_str());
        if is_name(&chars) {
            // The map changes outside the table, which is well formed at
            // every step: empty in the meantime.
            let mut map = StringHashMap::new();
            core::mem::swap(&mut self.map, &mut map);
            map.insert(name, expansion);
            core::mem::swap(&mut self.map, &mut map);
            true
        } else {
            false
        }
    }

    /// The expansion that `name` is bound to, if it is bound.
    pub fn get(&self, name: &str) -> (found: Option<&String>)
        ensures
            match found {
                Some(expansion) => self@.contains_key(name@) && expansion@ == self@[name@],
                None => !self@.contains_key(name@),
            },
            names_are_words(self@),
    {
        proof {
            use_type_invariant(self);
        }
        self.map.get(name)
    }

    /// Whether `name` is bound.
    pub fn contains(&self, name: &str) -> (bound: bool)
        ensures
            bound == self@.contains_key(name@),
            names_are_words(self@),
    {
        proof {
            use_type_invariant(self);
        }
        self.map.contains_key(name)
    }

    /// The number of names that are bound.
    pub fn len(&self) -> (n: usize)
        ensures
            n == self@.dom().len(),
            names_are_words(self@),
    {
        proof {
            use_type_invariant(self);
            assert(self@.dom() =~= self.map@.dom());
        }
        self.map.len()
    }
}

/// Whether `v` is an alias name.
pub fn is_name(v: &Vec<char>) -> (b: bool)
    ensures
        b == is_alias_name(v@),
{
    let mut i: usize = 0;
    while i < v.len()
        invariant
            i <= v.len(),
            forall|j: int| 0 <= j < i ==> !is_space(#[trigger] v@[j]),
        decreases v.len() - i,
    {
        if is_whitespace(v[i]) {
            return false;
        }
        i += 1;
    }
    v.len() > 0
}

/// The characters of `v` without the pair of single quotes around them.
pub fn unquote(v: &Vec<char>) -> (out: Vec<char>)
    ensures
        out@ == unquoted(v@),
{
    let n = v.len();
    if n >= 2 && v[0] == '\'' && v[n - 1] == '\'' {
        slice_of(v, 1, n - 1)
    } else {
        slice_of(v, 0, n)
    }
}

/// Reads the binding of one line of an alias listing, given as its characters.
pub fn binding_of(line: &Vec<char>) -> (found: Option<(String, String)>)
    ensures
        match found {
            Some((name, expansion)) => alias_binding(line@) == Some((name@, expansion@)),
            None => alias_binding(line@) is None,
        },
{
    let eq = find_char(line, 0, '=');
    proof {
        assert(line@.skip(0) == line@);
    }
    if eq == line.len() {
        return None;
    }
    let name = slice_of(line, 0, eq);
    if !is_name(&name) {
        return None;
    }
    let value = slice_of(line, eq + 1, line.len());
    let expansion = unquote(&value);
    Some((from_chars(&name), from_chars(&expansion)))
}

/// Reads the binding of one line of an alias listing: `name=expansion`, the
/// expansion in single quotes or bare.
pub fn parse_alias_line(line: &str) -> (found: Option<(String, String)>)
    ensures
        match found {
            Some((name, expansion)) => alias_binding(line@) == Some((name@, expansion@)),
            None => alias_binding(line@) is None,
        },
{
    let chars = to_chars(line);
    binding_of(&chars)
}

/// Reads the alias table from the shell's listing of its aliases, one binding
/// to a line. Lines that bind nothing are passed over.
pub fn parse_aliases(listing: &str) -> (table: AliasTable)
    ensures
        table@ == alias_bindings(lines(listing@)),
        names_are_words(table@),
{
    let chars = to_chars(listing);
    let rows = split_lines(&chars);
    let mut table = AliasTable::new();
    let mut i: usize = 0;
    while i < rows.len()
        invariant
            i <= rows.len(),
            table@ == alias_bindings(texts(rows@).take(i as int)),
            names_are_words(table@),
        decreases rows.len() - i,
    {
        proof {
            assert(texts(rows@).take(i + 1).drop_last() == texts(rows@).take(i as int));
        }
        match binding_of(&rows[i]) {
            Some((name, expansion)) => {
                table.insert(name, expansion);
            },
            None => {},
        }
        i += 1;
    }
    proof {
        assert(texts(rows@).take(i as int) == texts(rows@));
    }
    table
}

} // verus!
