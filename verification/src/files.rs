//! File names: what of a foreign name is safe to use, and how a name that is
//! taken is varied.

use vstd::prelude::*;

use crate::text::{decimal_text, join2, str_after_last};

verus! {

/// The operating systems that differ in where things lie and what they are
/// called.
#[derive(Clone, Copy, Debug, PartialEq, Eq, Structural)]
pub enum Platform {
    Windows,
    Linux,
    MacOs,
    Other,
}

/// What `sanitize_filename` makes of a name, with or without the rules of
/// Windows.
pub uninterp spec fn sanitized(name: Seq<char>, windows: bool) -> Seq<char>;

/// True when `name` cannot lead out of the directory that it is used in.
pub open spec fn stays_inside(name: Seq<char>) -> bool {
    &&& forall|i: int| 0 <= i < name.len() ==> #[trigger] name[i] != '/' && name[i] != '\\'
    &&& name != seq!['.']
    &&& name != seq!['.', '.']
}

/// `sanitize_filename::sanitize_with_options` with its default options but for
/// the choice of the rules of Windows. The name depends on nothing but the two
/// arguments; it holds no slash of either kind and is neither of the names for
/// a directory itself and the one above. It can be empty.
#[verifier::external_body]
pub(crate) fn sanitize(name: &str, windows: bool) -> (r: String)
    ensures
        r@ == sanitized(name@, windows),
        stays_inside(r@),
{
    let options = sanitize_filename::Options { windows, ..sanitize_filename::Options::default() };
    sanitize_filename::sanitize_with_options(name, options)
}

/// The name to store a received file under, which was offered as `file_name`.
pub fn safe_file_name(file_name: &str, platform: Platform) -> (r: String)
    ensures
        r@ == sanitized(file_name@, platform == Platform::Windows),
        stays_inside(r@),
{
    sanitize(file_name, platform == Platform::Windows)
}

/// Where the last dot of `name` stands; -1 where it has none.
pub open spec fn last_dot(name: Seq<char>) -> int {
    name.len() - crate::text::after_last(name, '.').len() - 1
}

/// True when `name` has an extension: a dot that does not begin it.
pub open spec fn has_extension(name: Seq<char>) -> bool {
    last_dot(name) >= 1 && name != seq!['.', '.']
}

/// `name` up to its extension.
pub open spec fn file_stem(name: Seq<char>) -> Seq<char> {
    if has_extension(name) {
        name.take(last_dot(name))
    } else {
        name
    }
}

/// The extension of `name` with its dot; nothing where it has none.
pub open spec fn file_extension(name: Seq<char>) -> Seq<char> {
    if has_extension(name) {
        name.skip(last_dot(name))
    } else {
        Seq::empty()
    }
}

/// The `n`th variation of a name.
pub open spec fn numbered_name(stem: Seq<char>, n: nat, extension: Seq<char>) -> Seq<char> {
    stem + " ("@ + crate::text::decimal(n) + ")"@ + extension
}

proof fn lemma_last_dot(name: Seq<char>)
    ensures
        crate::text::after_last(name, '.').len() <= name.len(),
        -1 <= last_dot(name) < name.len(),
        last_dot(name) >= 0 ==> name[last_dot(name)] == '.',
        forall|i: int| last_dot(name) < i < name.len() ==> name[i] != '.',
    decreases name.len(),
{
    if name.len() > 0 && name.last() != '.' {
        let rest = name.drop_last();
        lemma_last_dot(rest);
        assert(last_dot(name) == last_dot(rest));
        assert forall|i: int| last_dot(name) < i < name.len() implies name[i] != '.' by {
            if i < rest.len() {
                assert(rest[i] == name[i]);
            }
        }
        if last_dot(rest) >= 0 {
            assert(rest[last_dot(rest)] == name[last_dot(rest)]);
        }
    }
}

/// Stem and extension make up the name, and the extension holds no dot but its
/// first.
pub proof fn law_stem_and_extension(name: Seq<char>)
    ensures
        file_stem(name) + file_extension(name) == name,
        has_extension(name) ==> file_extension(name)[0] == '.',
        forall|i: int| 1 <= i < file_extension(name).len() ==> file_extension(name)[i] != '.',
{
    lemma_last_dot(name);
    assert(file_stem(name) + file_extension(name) =~= name);
}

/// Different numbers give different variations of a name.
pub proof fn law_numbered_names_differ(stem: Seq<char>, extension: Seq<char>, a: nat, b: nat)
    requires
        numbered_name(stem, a, extension) == numbered_name(stem, b, extension),
    ensures
        a == b,
{
    let x = numbered_name(stem, a, extension);
    let from = (stem + " ("@).len() as int;
    let tail = (")"@ + extension).len() as int;
    let da = crate::text::decimal(a);
    let db = crate::text::decimal(b);
    assert(x.len() == from + da.len() + tail);
    assert(x.len() == from + db.len() + tail);
    assert(x.subrange(from, x.len() - tail) =~= da);
    assert(numbered_name(stem, b, extension).subrange(from, x.len() - tail) =~= db);
    crate::text::law_decimal_injective(a, b);
}

/// A variation of a name that stays inside its directory stays inside too.
pub proof fn law_numbered_name_stays_inside(name: Seq<char>, n: nat)
    requires
        stays_inside(name),
    ensures
        stays_inside(numbered_name(file_stem(name), n, file_extension(name))),
{
    let stem = file_stem(name);
    let extension = file_extension(name);
    let x = numbered_name(stem, n, extension);
    let open = " ("@;
    let close = ")"@;
    let number = crate::text::decimal(n);
    reveal_strlit(" (");
    reveal_strlit(")");
    lemma_last_dot(name);
    lemma_decimal_is_plain(n);
    assert(x[stem.len() as int] == ' ');
    assert forall|i: int| 0 <= i < x.len() implies #[trigger] x[i] != '/' && x[i] != '\\' by {
        let a = stem.len() as int;
        let b = a + 2;
        let c = b + number.len();
        let d = c + 1;
        if i < a {
            assert(x[i] == name[i]);
        } else if i < b {
            assert(x[i] == open[i - a]);
        } else if i < c {
            assert(x[i] == number[i - b]);
        } else if i < d {
            assert(x[i] == close[i - c]);
        } else {
            assert(x[i] == extension[i - d]);
            assert(extension[i - d] == name[i - d + last_dot(name)]);
        }
    }
    assert(x.contains(' '));
    assert(x != seq!['.'] && x != seq!['.', '.']) by {
        let y = seq!['.'];
        let z = seq!['.', '.'];
        if x == y {
            assert(y[stem.len() as int] == '.');
        }
        if x == z {
            assert(z[stem.len() as int] == '.');
        }
    }
}

proof fn lemma_decimal_is_plain(n: nat)
    ensures
        forall|i: int|
            0 <= i < crate::text::decimal(n).len() ==> '0' <= #[trigger] crate::text::decimal(n)[i]
                <= '9',
    decreases n,
{
    if n >= 10 {
        lemma_decimal_is_plain(n / 10);
        let rest = crate::text::decimal(n / 10);
        let all = crate::text::decimal(n);
        assert forall|i: int| 0 <= i < all.len() implies '0' <= #[trigger] all[i] <= '9' by {
            if i < rest.len() {
                assert(all[i] == rest[i]);
            }
        }
    }
}

/// What the search for a free name knows.
pub struct NameSearchState {
    pub stem: Seq<char>,
    pub extension: Seq<char>,
    /// The number of the variation to try.
    pub number: nat,
}

/// The search for a variation of a taken name that is free.
pub struct NameSearch {
    stem: String,
    extension: String,
    number: u32,
}

impl View for NameSearch {
    type V = NameSearchState;

    closed spec fn view(&self) -> NameSearchState {
        NameSearchState {
            stem: self.stem@,
            extension: self.extension@,
            number: self.number as nat,
        }
    }
}

impl NameSearch {
    /// Starts at the first variation of `name`, or of nothing where a path has
    /// no name at its end.
    pub fn new(name: Option<&str>) -> (r: NameSearch)
        ensures
            r@.stem == (match name {
                Some(n) => file_stem(n@),
                None => Seq::empty(),
            }),
            r@.extension == (match name {
                Some(n) => file_extension(n@),
                None => Seq::empty(),
            }),
            r@.number == 1,
    {
        match name {
            Some(n) => {
                let (stem, extension) = split_file_name(n);
                NameSearch { stem, extension, number: 1 }
            },
            None => NameSearch { stem: String::new(), extension: String::new(), number: 1 },
        }
    }

    /// The variation to try.
    pub fn candidate(&self) -> (r: String)
        ensures
            r@ == numbered_name(self@.stem, self@.number, self@.extension),
    {
        let mut r: String = join2(self.stem.as_str(), " (");
        let number: String = decimal_text(self.number as u64);
        r.append(number.as_str());
        r.append(")");
        r.append(self.extension.as_str());
        r
    }

    /// True when there is a further variation.
    pub fn has_next(&self) -> (r: bool)
        ensures
            r == (self@.number < u32::MAX),
    {
        self.number < u32::MAX
    }

    /// Goes on to the next variation: the present one is taken.
    pub fn advance(&mut self)
        requires
            old(self)@.number < u32::MAX,
        ensures
            final(self)@ == (NameSearchState { number: old(self)@.number + 1, ..old(self)@ }),
    {
        self.number = self.number + 1;
    }
}

/// The stem of `name` and its extension with the dot.
pub fn split_file_name(name: &str) -> (r: (String, String))
    ensures
        r.0@ == file_stem(name@),
        r.1@ == file_extension(name@),
{
    let after: String = str_after_last(name, '.');
    let n: usize = name.unicode_len();
    let a: usize = after.as_str().unicode_len();
    proof {
        lemma_last_dot(name@);
        reveal_strlit("..");
        assert(".."@ =~= seq!['.', '.']);
        assert(name@.skip(0) == name@);
    }
    if n - a >= 2 && !crate::text::str_eq(name, "..") {
        let dot: usize = n - a - 1;
        let stem: String = name.substring_char(0, dot).to_owned();
        proof {
            assert(stem@ == name@.take(dot as int));
        }
        (stem, crate::text::skip_chars(name, dot))
    } else {
        (name.to_owned(), String::new())
    }
}

/// A name of a stem that is not empty, a dot and an ending without a dot splits
/// at that dot, however long the ending is.
pub proof fn law_splits_at_last_dot(stem: Seq<char>, ending: Seq<char>)
    requires
        stem.len() >= 1,
        !ending.contains('.'),
        stem + seq!['.'] + ending != seq!['.', '.'],
    ensures
        file_stem(stem + seq!['.'] + ending) == stem,
        file_extension(stem + seq!['.'] + ending) == seq!['.'] + ending,
{
    let name = stem + seq!['.'] + ending;
    let n = stem.len() as int;
    lemma_last_dot(name);
    assert(name[n] == '.');
    assert(last_dot(name) == n) by {
        if last_dot(name) > n {
            assert(name[last_dot(name)] == ending[last_dot(name) - n - 1]);
        }
    }
    assert(name.take(n) =~= stem);
    assert(name.skip(n) =~= seq!['.'] + ending);
}

/// A name without a dot, or with none but at its beginning, and the name of two
/// dots, are all stem.
pub proof fn law_nothing_to_split(name: Seq<char>)
    requires
        name == seq!['.', '.'] || forall|i: int| 1 <= i < name.len() ==> name[i] != '.',
    ensures
        file_stem(name) == name,
        file_extension(name).len() == 0,
{
    lemma_last_dot(name);
}

/// What stands where in a varied name: the stem, a space, the number in
/// brackets, the extension.
pub proof fn law_numbered_name_layout(stem: Seq<char>, n: nat, extension: Seq<char>)
    ensures
        ({
            let r = numbered_name(stem, n, extension);
            let from = stem.len() + 2;
            let to = r.len() - extension.len() - 1;
            &&& from < to
            &&& r.take(stem.len() as int) == stem
            &&& r[stem.len() as int] == ' '
            &&& r[(stem.len() + 1) as int] == '('
            &&& crate::text::decimal_value(r.subrange(from as int, to)) == n
            &&& n > 0 ==> r[from as int] != '0'
            &&& r[to] == ')'
            &&& r.skip(to + 1) == extension
        }),
{
    reveal_strlit(" (");
    reveal_strlit(")");
    let number = crate::text::decimal(n);
    crate::text::law_decimal_spells(n);
    let r = numbered_name(stem, n, extension);
    let from = (stem.len() + 2) as int;
    let to = r.len() - extension.len() - 1;
    assert(to == from + number.len());
    assert(r.take(stem.len() as int) =~= stem);
    assert(r.subrange(from, to) =~= number);
    assert(r[from] == number[0]);
    assert(r.skip(to + 1) =~= extension);
}

} // verus!
