//! INI text as ordered sections of ordered keys.
//!
//! The text is cut into items by the streaming parser of `ini_core`, with
//! surrounding whitespace trimmed from every name, key and value. The items
//! are then gathered: a section header opens a section, empty at first; a
//! key that follows belongs to the section opened last. A key before the
//! first header belongs to no section and is dropped. A header that comes
//! again empties its section, which keeps its place. A key that comes again
//! in its section takes the later value and keeps its place. A key without
//! `=` is kept without a value, which is not the same as an empty value.
//!
//! A text of more than `MAX_LINE_BREAKS` line breaks is not parsed: the
//! streaming parser counts lines in 32 bits.

use crate::ordered::{
    ini_entries, ini_insert, ini_with_capacity, lemma_position, lemma_position_by_keys, position,
    section_entries, section_insert, section_with_capacity, upsert,
};
use crate::text::texts;
use indexmap::IndexMap;
use ini_core::{Item, Parser};
use vstd::prelude::*;
use vstd::utf8::encode_utf8;

verus! {

/// One section: keys with their values.
pub type IniSection<'a> = IndexMap<&'a str, Option<&'a str>>;

/// A parsed INI text: sections under their names.
pub type Ini<'a> = IndexMap<&'a str, IniSection<'a>>;

/// What a section is, mathematically.
pub type SectionView = Seq<(Seq<char>, Option<Seq<char>>)>;

/// What a parsed INI text is, mathematically.
pub type IniView = Seq<(Seq<char>, SectionView)>;

/// One item of an INI text. The texts are slices of the text parsed.
pub enum IniItem<'a> {
    /// A malformed section header.
    Error(&'a str),
    /// A section header, with the name of the section.
    Section(&'a str),
    /// A key with its value.
    Property(&'a str, &'a str),
    /// A key without a value.
    Action(&'a str),
    /// A comment.
    Comment(&'a str),
    /// A blank line.
    Blank,
}

/// What an `IniItem` is, mathematically.
pub enum ItemView {
    Error(Seq<char>),
    Section(Seq<char>),
    Property(Seq<char>, Seq<char>),
    Action(Seq<char>),
    Comment(Seq<char>),
    Blank,
}

impl<'a> View for IniItem<'a> {
    type V = ItemView;

    open spec fn view(&self) -> ItemView {
        match *self {
            IniItem::Error(m) => ItemView::Error(m@),
            IniItem::Section(s) => ItemView::Section(s@),
            IniItem::Property(k, v) => ItemView::Property(k@, v@),
            IniItem::Action(k) => ItemView::Action(k@),
            IniItem::Comment(c) => ItemView::Comment(c@),
            IniItem::Blank => ItemView::Blank,
        }
    }
}

/// The views of a sequence of items.
pub open spec fn item_views(items: Seq<IniItem>) -> Seq<ItemView> {
    Seq::new(items.len(), |i: int| items[i]@)
}

/// The items that the streaming parser cuts a text into, with trimming.
pub uninterp spec fn ini_items(text: Seq<char>) -> Seq<ItemView>;

/// The most line breaks that a text to be parsed may have. The streaming
/// parser counts the lines it has passed in 32 bits.
pub const MAX_LINE_BREAKS: usize = 0xFFFF_FFFF;

/// Whether a byte is a line break: a line feed or a carriage return.
pub open spec fn is_line_break(b: u8) -> bool {
    b == 10 || b == 13
}

/// The number of line breaks among bytes.
pub open spec fn line_breaks(bytes: Seq<u8>) -> nat
    decreases bytes.len(),
{
    if bytes.len() == 0 {
        0
    } else if is_line_break(bytes.last()) {
        line_breaks(bytes.drop_last()) + 1
    } else {
        line_breaks(bytes.drop_last())
    }
}

/// Whether a text can be parsed: its UTF-8 form has no more line breaks
/// than the parser can count.
pub open spec fn fits(text: Seq<char>) -> bool {
    line_breaks(encode_utf8(text)) <= MAX_LINE_BREAKS
}

/// Whether `source` can be parsed.
pub fn text_fits(source: &str) -> (r: bool)
    ensures
        r == fits(source@),
{
    let bytes = source.as_bytes();
    let n = bytes.len();
    let mut count: usize = 0;
    let mut i: usize = 0;
    assert(bytes@.take(0) =~= Seq::<u8>::empty());
    while i < n
        invariant
            i <= n,
            n == bytes@.len(),
            count <= i,
            count == line_breaks(bytes@.take(i as int)),
        decreases n - i,
    {
        assert(bytes@.take(i + 1).drop_last() =~= bytes@.take(i as int));
        assert(bytes@.take(i + 1).last() == bytes@[i as int]);
        if bytes[i] == 10 || bytes[i] == 13 {
            count += 1;
        }
        i += 1;
    }
    assert(bytes@.take(n as int) =~= bytes@);
    count <= MAX_LINE_BREAKS
}

/// Cuts `source` into items.
///
/// Trusted: runs `ini_core::Parser::new(source).auto_trim(true)` to its end
/// and hands each item on, variant for variant. The parser reads nothing
/// but the text; the contract gives its output the name `ini_items` and
/// claims nothing more of it. The parser adds one to a 32-bit line count
/// where it passes a line break, so a text that `fits` cannot overflow the
/// count; texts of more line breaks are left out.
#[verifier::external_body]
pub(crate) fn tokenize<'a>(source: &'a str) -> (r: Vec<IniItem<'a>>)
    requires
        fits(source@),
    ensures
        item_views(r@) == ini_items(source@),
{
    Parser::new(source).auto_trim(true).map(|e| match e {
        Item::Error(m) => IniItem::Error(m),
        Item::Section(s) => IniItem::Section(s),
        Item::Property(k, v) => IniItem::Property(k, v),
        Item::Action(k) => IniItem::Action(k),
        Item::Comment(c) => IniItem::Comment(c),
        Item::Blank => IniItem::Blank,
    }).collect()
}

/// The sections gathered so far, and the name of the section that is open.
pub struct Gathered {
    pub sections: IniView,
    pub open: Option<Seq<char>>,
}

/// `sections` with `value` put under `key` in the section `name`.
pub open spec fn put(
    sections: IniView,
    name: Seq<char>,
    key: Seq<char>,
    value: Option<Seq<char>>,
) -> IniView {
    let i = position(sections, name);
    if i >= 0 {
        sections.update(i, (name, upsert(sections[i].1, key, value)))
    } else {
        sections
    }
}

/// What one more item makes of what was gathered.
pub open spec fn step(g: Gathered, item: ItemView) -> Gathered {
    match item {
        ItemView::Section(name) => Gathered {
            sections: upsert(g.sections, name, Seq::empty()),
            open: Some(name),
        },
        ItemView::Action(key) => match g.open {
            Some(name) => Gathered { sections: put(g.sections, name, key, None), open: g.open },
            None => g,
        },
        ItemView::Property(key, value) => match g.open {
            Some(name) => Gathered {
                sections: put(g.sections, name, key, Some(value)),
                open: g.open,
            },
            None => g,
        },
        _ => g,
    }
}

/// What a sequence of items gathers to.
pub open spec fn gather(items: Seq<ItemView>) -> Gathered
    decreases items.len(),
{
    if items.len() == 0 {
        Gathered { sections: Seq::empty(), open: None }
    } else {
        step(gather(items.drop_last()), items.last())
    }
}

/// The sections that a sequence of items makes.
pub open spec fn sections_of(items: Seq<ItemView>) -> IniView {
    gather(items).sections
}

/// One more item is one more step.
pub proof fn lemma_gather_push(items: Seq<ItemView>, item: ItemView)
    ensures
        gather(items.push(item)) == step(gather(items), item),
{
    assert(items.push(item).drop_last() =~= items);
}

/// Putting a key into a section that was just stored is storing the
/// section with the key in it.
pub proof fn lemma_put_after_upsert(
    sections: IniView,
    name: Seq<char>,
    section: SectionView,
    key: Seq<char>,
    value: Option<Seq<char>>,
)
    ensures
        put(upsert(sections, name, section), name, key, value) == upsert(
            sections,
            name,
            upsert(section, key, value),
        ),
{
    lemma_position(sections, name);
    let stored = upsert(sections, name, section);
    if position(sections, name) >= 0 {
        lemma_position_by_keys(stored, sections, name);
    } else {
        assert(stored.drop_last() =~= sections);
    }
    assert(put(stored, name, key, value) =~= upsert(sections, name, upsert(section, key, value)));
}

/// Gathers items into sections.
pub fn build<'a>(items: &Vec<IniItem<'a>>) -> (r: Ini<'a>)
    ensures
        ini_entries(r) == sections_of(item_views(items@)),
{
    let mut map = ini_with_capacity(16);
    let mut name: Option<&'a str> = None;
    let mut section = section_with_capacity(0);
    let n = items.len();
    let mut i: usize = 0;
    assert(item_views(items@.take(0)) =~= Seq::<ItemView>::empty());
    while i < n
        invariant
            i <= n,
            n == items@.len(),
            match name {
                Some(s) => gather(item_views(items@.take(i as int))) == (Gathered {
                    sections: upsert(ini_entries(map), s@, section_entries(section)),
                    open: Some(s@),
                }),
                None => gather(item_views(items@.take(i as int))) == (Gathered {
                    sections: ini_entries(map),
                    open: None,
                }),
            },
        decreases n - i,
    {
        proof {
            assert(item_views(items@.take(i + 1)).drop_last() =~= item_views(
                items@.take(i as int),
            ));
            assert(item_views(items@.take(i + 1)).last() == items@[i as int]@);
        }
        match items[i] {
            IniItem::Section(s) => {
                if let Some(previous) = name {
                    ini_insert(&mut map, previous, section);
                }
                name = Some(s);
                // each section will mostly have no more than four keys
                section = section_with_capacity(4);
            },
            IniItem::Action(key) => {
                if let Some(s) = name {
                    proof {
                        lemma_put_after_upsert(
                            ini_entries(map),
                            s@,
                            section_entries(section),
                            key@,
                            None,
                        );
                    }
                    section_insert(&mut section, key, None);
                }
            },
            IniItem::Property(key, value) => {
                if let Some(s) = name {
                    proof {
                        lemma_put_after_upsert(
                            ini_entries(map),
                            s@,
                            section_entries(section),
                            key@,
                            Some(value@),
                        );
                    }
                    section_insert(&mut section, key, Some(value));
                }
            },
            _ => {},
        }
        i += 1;
    }
    assert(items@.take(n as int) =~= items@);
    if let Some(last) = name {
        ini_insert(&mut map, last, section);
    }
    map
}

/// The malformed section headers among the items, in order.
pub open spec fn errors_of(items: Seq<ItemView>) -> Seq<Seq<char>>
    decreases items.len(),
{
    if items.len() == 0 {
        Seq::empty()
    } else {
        match items.last() {
            ItemView::Error(line) => errors_of(items.drop_last()).push(line),
            _ => errors_of(items.drop_last()),
        }
    }
}

/// The malformed section headers among the items, in order. They make no
/// section and do not stop the gathering.
pub fn errors_among<'a>(items: &Vec<IniItem<'a>>) -> (r: Vec<String>)
    ensures
        texts(r@) == errors_of(item_views(items@)),
{
    let mut r: Vec<String> = Vec::new();
    let n = items.len();
    let mut i: usize = 0;
    assert(item_views(items@.take(0)) =~= Seq::<ItemView>::empty());
    assert(texts(r@) =~= errors_of(item_views(items@.take(0))));
    while i < n
        invariant
            i <= n,
            n == items@.len(),
            texts(r@) == errors_of(item_views(items@.take(i as int))),
        decreases n - i,
    {
        proof {
            assert(item_views(items@.take(i + 1)).drop_last() =~= item_views(
                items@.take(i as int),
            ));
            assert(item_views(items@.take(i + 1)).last() == items@[i as int]@);
        }
        if let IniItem::Error(line) = items[i] {
            let ghost before = r@;
            r.push(line.to_owned());
            assert(texts(r@) =~= texts(before).push(line@));
        }
        i += 1;
    }
    assert(items@.take(n as int) =~= items@);
    r
}

/// The malformed section headers of `source`, for a caller to report.
/// `None` where `source` has too many lines to be parsed.
pub fn syntax_errors(source: &str) -> (r: Option<Vec<String>>)
    ensures
        match r {
            Some(lines) => fits(source@) && texts(lines@) == errors_of(ini_items(source@)),
            None => !fits(source@),
        },
{
    if !text_fits(source) {
        return None;
    }
    let items = tokenize(source);
    Some(errors_among(&items))
}

/// Parses `source` into sections. `None` where `source` has too many lines
/// to be parsed.
pub fn parse<'a>(source: &'a str) -> (r: Option<Ini<'a>>)
    ensures
        match r {
            Some(ini) => fits(source@) && ini_entries(ini) == sections_of(ini_items(source@)),
            None => !fits(source@),
        },
{
    if !text_fits(source) {
        return None;
    }
    let items = tokenize(source);
    Some(build(&items))
}

} // verus!
