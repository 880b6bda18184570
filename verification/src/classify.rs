//! The extension classifier: a fixed table from uppercase file extension
//! to category name, with pass-through for extensions the table lacks,
//! and the extraction of a filename's extension.
//!
//! "ODT" belongs to two of the source lists; the table keeps the first
//! assignment, so "ODT" resolves to "Texts".

use vstd::prelude::*;
use crate::text::{lemma_upper_seq_idempotent, to_upper, upper_seq};

verus! {

/// The fixed extension table, in construction order. Keys are uppercase
/// and unique; several keys may share one category.
pub open spec fn table() -> Seq<(Seq<char>, Seq<char>)> {
    seq![
        ("TXT"@, "Texts"@),
        ("DOC"@, "Texts"@),
        ("DOCX"@, "Texts"@),
        ("ODT"@, "Texts"@),
        ("CSV"@, "Tables"@),
        ("XLS"@, "Tables"@),
        ("XLSX"@, "Tables"@),
        ("PPT"@, "Presentations"@),
        ("PPTX"@, "Presentations"@),
        ("ODP"@, "Presentations"@),
        ("JPG"@, "Images"@),
        ("JPEG"@, "Images"@),
        ("PNG"@, "Images"@),
        ("TIFF"@, "Images"@),
        ("BMP"@, "Images"@),
        ("MP4"@, "Videos"@),
        ("MOV"@, "Videos"@),
        ("AVI"@, "Videos"@),
        ("WMV"@, "Videos"@),
        ("WAV"@, "Audios"@),
        ("MP3"@, "Audios"@),
        ("FLAC"@, "Audios"@),
    ]
}

/// The value of the first pair whose key equals `key`, if any.
pub open spec fn lookup(t: Seq<(Seq<char>, Seq<char>)>, key: Seq<char>) -> Option<Seq<char>>
    decreases t.len(),
{
    if t.len() == 0 {
        None
    } else if t[0].0 == key {
        Some(t[0].1)
    } else {
        lookup(t.drop_first(), key)
    }
}

/// The category of an already-uppercased extension: the table's entry, or
/// the extension itself where the table has none.
pub open spec fn category_of(ext_upper: Seq<char>) -> Seq<char> {
    match lookup(table(), ext_upper) {
        Some(c) => c,
        None => ext_upper,
    }
}

/// The category of an extension as written: uppercase it, then resolve.
pub open spec fn resolved_category(ext: Seq<char>) -> Seq<char> {
    category_of(upper_seq(ext))
}

/// An exec pair table that mirrors `table()` entry for entry.
pub open spec fn map_matches_table(m: Seq<(String, String)>) -> bool {
    &&& m.len() == table().len()
    &&& forall|i: int|
        0 <= i < m.len() ==> {
            &&& (#[trigger] m[i]).0@ == table()[i].0
            &&& m[i].1@ == table()[i].1
        }
}

fn pair(k: &str, v: &str) -> (r: (String, String))
    ensures
        r.0@ == k@,
        r.1@ == v@,
{
    (k.to_owned(), v.to_owned())
}

/// The extension table as a value, mirroring `table()`.
pub fn get_name_map() -> (m: Vec<(String, String)>)
    ensures
        map_matches_table(m@),
{
    let mut m: Vec<(String, String)> = Vec::new();
    m.push(pair("TXT", "Texts"));
    m.push(pair("DOC", "Texts"));
    m.push(pair("DOCX", "Texts"));
    m.push(pair("ODT", "Texts"));
    m.push(pair("CSV", "Tables"));
    m.push(pair("XLS", "Tables"));
    m.push(pair("XLSX", "Tables"));
    m.push(pair("PPT", "Presentations"));
    m.push(pair("PPTX", "Presentations"));
    m.push(pair("ODP", "Presentations"));
    m.push(pair("JPG", "Images"));
    m.push(pair("JPEG", "Images"));
    m.push(pair("PNG", "Images"));
    m.push(pair("TIFF", "Images"));
    m.push(pair("BMP", "Images"));
    m.push(pair("MP4", "Videos"));
    m.push(pair("MOV", "Videos"));
    m.push(pair("AVI", "Videos"));
    m.push(pair("WMV", "Videos"));
    m.push(pair("WAV", "Audios"));
    m.push(pair("MP3", "Audios"));
    m.push(pair("FLAC", "Audios"));
    m
}

proof fn lemma_lookup_step(t: Seq<(Seq<char>, Seq<char>)>, key: Seq<char>, i: int)
    requires
        0 <= i < t.len(),
        t[i].0 != key,
    ensures
        lookup(t.skip(i), key) == lookup(t.skip(i + 1), key),
{
    assert(t.skip(i).drop_first() =~= t.skip(i + 1));
}

/// The classifier: the table's category for the extension, or the
/// extension itself unchanged where the table has no entry.
pub fn classify(name_map: &Vec<(String, String)>, ext: &String) -> (r: String)
    requires
        map_matches_table(name_map@),
    ensures
        r@ == category_of(ext@),
{
    let n = name_map.len();
    let mut i: usize = 0;
    proof {
        assert(table().skip(0) =~= table());
    }
    while i < n
        invariant
            map_matches_table(name_map@),
            n == name_map@.len(),
            0 <= i <= n,
            lookup(table(), ext@) == lookup(table().skip(i as int), ext@),
        decreases n - i,
    {
        let p = &name_map[i];
        if p.0.eq(ext) {
            proof {
                assert(table().skip(i as int)[0] == table()[i as int]);
            }
            return p.1.clone();
        }
        proof {
            lemma_lookup_step(table(), ext@, i as int);
        }
        i += 1;
    }
    proof {
        assert(table().skip(n as int) =~= Seq::<(Seq<char>, Seq<char>)>::empty());
    }
    ext.clone()
}

/// Uppercase the extension and resolve it through the table.
pub fn resolve_extension(name_map: &Vec<(String, String)>, ext: &String) -> (r: String)
    requires
        map_matches_table(name_map@),
    ensures
        r@ == resolved_category(ext@),
{
    let up = to_upper(ext.as_str());
    classify(name_map, &up)
}

/// The substring after the last '.' of the name, if the name has one.
pub open spec fn ext_of(name: Seq<char>) -> Option<Seq<char>>
    decreases name.len(),
{
    if name.len() == 0 {
        None
    } else if name.last() == '.' {
        Some(Seq::empty())
    } else {
        match ext_of(name.drop_last()) {
            Some(e) => Some(e.push(name.last())),
            None => None,
        }
    }
}

proof fn lemma_ext_of_dot(name: Seq<char>, p: int)
    requires
        0 <= p < name.len(),
        name[p] == '.',
        forall|j: int| p < j < name.len() ==> name[j] != '.',
    ensures
        ext_of(name) == Some(name.subrange(p + 1, name.len() as int)),
    decreases name.len(),
{
    if p == name.len() - 1 {
        assert(name.subrange(p + 1, name.len() as int) =~= Seq::<char>::empty());
    } else {
        let t = name.drop_last();
        assert(forall|j: int| p < j < t.len() ==> #[trigger] t[j] != '.');
        lemma_ext_of_dot(t, p);
        assert(t.subrange(p + 1, t.len() as int).push(name.last()) =~= name.subrange(
            p + 1,
            name.len() as int,
        ));
    }
}

proof fn lemma_ext_of_none(name: Seq<char>)
    requires
        forall|j: int| 0 <= j < name.len() ==> name[j] != '.',
    ensures
        ext_of(name) is None,
    decreases name.len(),
{
    if name.len() > 0 {
        let t = name.drop_last();
        assert(forall|j: int| 0 <= j < t.len() ==> #[trigger] t[j] != '.');
        lemma_ext_of_none(t);
    }
}

/// The extension of a filename: what follows the last '.', or nothing
/// where the name holds no '.'.
pub fn extension_of(name: &str) -> (r: Option<String>)
    ensures
        match r {
            Some(e) => ext_of(name@) == Some(e@),
            None => ext_of(name@) is None,
        },
{
    let n = name.unicode_len();
    let mut i: usize = n;
    while i > 0
        invariant
            n == name@.len(),
            0 <= i <= n,
            forall|j: int| i <= j < n ==> name@[j] != '.',
        decreases i,
    {
        if name.get_char(i - 1) == '.' {
            let e = name.substring_char(i, n);
            proof {
                lemma_ext_of_dot(name@, i - 1);
            }
            return Some(e.to_owned());
        }
        i -= 1;
    }
    proof {
        lemma_ext_of_none(name@);
    }
    None
}

/// Classification is case-insensitive: two spellings of an extension with
/// the same uppercased form resolve to the same category.
pub proof fn lemma_classification_case_insensitive(a: Seq<char>, b: Seq<char>)
    requires
        upper_seq(a) == upper_seq(b),
    ensures
        resolved_category(a) == resolved_category(b),
{
}

/// An extension already in uppercase resolves as any of its spellings
/// does: the classification sees only the uppercased form.
pub proof fn lemma_resolve_of_uppercased(s: Seq<char>)
    ensures
        resolved_category(upper_seq(s)) == resolved_category(s),
{
    lemma_upper_seq_idempotent(s);
    lemma_classification_case_insensitive(upper_seq(s), s);
}

/// An extension absent from the table passes through: its resolved
/// category is the uppercased extension itself.
pub proof fn lemma_unmapped_extension_passes_through(e: Seq<char>)
    requires
        lookup(table(), upper_seq(e)) is None,
    ensures
        resolved_category(e) == upper_seq(e),
{
}

} // verus!
