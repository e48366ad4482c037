//! Recognition of image files by the extension of their file name.
//!
//! A path denotes an image when its final segment, read without regard to
//! letter case, ends in a dot followed by one of `gif`, `jpeg`, `jpg`, `png`
//! or `webp`. Only the capitals `A` to `Z` are folded. Folding the capitals
//! of other alphabets too would admit no further name: none of them has a
//! lower-case form that can stand within one of these endings.

use vstd::prelude::*;

verus! {

/// The lower-case form of an ASCII capital letter; any other character is
/// left as it is.
pub open spec fn fold_case(c: char) -> char {
    if 'A' <= c && c <= 'Z' {
        ((c as u32) + 32) as char
    } else {
        c
    }
}

/// `s` with every ASCII capital letter replaced by its lower-case form.
pub open spec fn lowercase(s: Seq<char>) -> Seq<char> {
    Seq::new(s.len(), |i: int| fold_case(s[i]))
}

/// Whether `s` ends with `suffix`.
pub open spec fn ends_with(s: Seq<char>, suffix: Seq<char>) -> bool {
    &&& suffix.len() <= s.len()
    &&& s.subrange(s.len() - suffix.len(), s.len() as int) == suffix
}

/// The final segment of a path: what follows its last `/`, or the whole path
/// when it holds no `/`. A path that is empty or ends in `/` has an empty
/// final segment.
pub open spec fn file_name(path: Seq<char>) -> Seq<char>
    decreases path.len(),
{
    if path.len() == 0 || path.last() == '/' {
        Seq::empty()
    } else {
        file_name(path.drop_last()).push(path.last())
    }
}

/// Whether `ext`, taken as written, is one of the supported extensions.
pub open spec fn is_supported_extension(ext: Seq<char>) -> bool {
    ||| ext == seq!['g', 'i', 'f']
    ||| ext == seq!['j', 'p', 'e', 'g']
    ||| ext == seq!['j', 'p', 'g']
    ||| ext == seq!['p', 'n', 'g']
    ||| ext == seq!['w', 'e', 'b', 'p']
}

/// Whether a file name ends, in any letter case, in a dot and `ext`.
pub open spec fn has_extension(name: Seq<char>, ext: Seq<char>) -> bool {
    ends_with(lowercase(name), seq!['.'] + ext)
}

/// Whether a file name carries one of the supported extensions.
pub open spec fn is_image_name(name: Seq<char>) -> bool {
    ||| has_extension(name, seq!['g', 'i', 'f'])
    ||| has_extension(name, seq!['j', 'p', 'e', 'g'])
    ||| has_extension(name, seq!['j', 'p', 'g'])
    ||| has_extension(name, seq!['p', 'n', 'g'])
    ||| has_extension(name, seq!['w', 'e', 'b', 'p'])
}

/// Whether the final segment of a path carries one of the supported
/// extensions.
pub open spec fn is_image_path(path: Seq<char>) -> bool {
    is_image_name(file_name(path))
}

/// A stem, a dot and an extension, joined.
pub open spec fn with_extension(stem: Seq<char>, ext: Seq<char>) -> Seq<char> {
    stem + seq!['.'] + ext
}

/// The final segment is the longest tail of the path that holds no `/`.
proof fn lemma_file_name_is_tail(path: Seq<char>)
    ensures
        file_name(path).len() <= path.len(),
        file_name(path) == path.subrange(path.len() - file_name(path).len(), path.len() as int),
        forall|i: int| 0 <= i < file_name(path).len() ==> file_name(path)[i] != '/',
        file_name(path).len() < path.len() ==> path[path.len() - file_name(path).len() - 1] == '/',
    decreases path.len(),
{
    if path.len() == 0 || path.last() == '/' {
        assert(file_name(path) =~= path.subrange(path.len() as int, path.len() as int));
    } else {
        let front = path.drop_last();
        lemma_file_name_is_tail(front);
        let name = file_name(path);
        assert(name =~= path.subrange(path.len() - name.len(), path.len() as int));
    }
}

/// A suffix without `/` ends the lower-cased final segment exactly when it
/// ends the lower-cased path.
proof fn lemma_suffix_of_file_name(path: Seq<char>, suffix: Seq<char>)
    requires
        forall|i: int| 0 <= i < suffix.len() ==> suffix[i] != '/',
    ensures
        ends_with(lowercase(file_name(path)), suffix) == ends_with(lowercase(path), suffix),
{
    lemma_file_name_is_tail(path);
    let name = file_name(path);
    let n = path.len() as int;
    let k = name.len() as int;
    let m = suffix.len() as int;
    if m <= k {
        let name_tail = lowercase(name).subrange(k - m, k);
        let path_tail = lowercase(path).subrange(n - m, n);
        assert(name_tail =~= path_tail) by {
            assert forall|i: int| 0 <= i < m implies #[trigger] name_tail[i] == path_tail[i] by {
                assert(name[k - m + i] == path.subrange(n - k, n)[k - m + i]);
            }
        }
    } else if m <= n {
        let tail = lowercase(path).subrange(n - m, n);
        assert(tail[m - k - 1] == fold_case(path[n - k - 1]));
        assert(suffix[m - k - 1] != '/');
    }
}

/// The lower-cased `s` ends in a dot and three given letters exactly when
/// its last four characters are that dot and those letters in either case.
proof fn lemma_three_letter_extension(s: Seq<char>, a: char, b: char, c: char)
    ensures
        has_extension(s, seq![a, b, c]) <==> ({
            &&& 4 <= s.len()
            &&& fold_case(s[s.len() - 4]) == '.'
            &&& fold_case(s[s.len() - 3]) == a
            &&& fold_case(s[s.len() - 2]) == b
            &&& fold_case(s[s.len() - 1]) == c
        }),
{
    let suffix = seq!['.'] + seq![a, b, c];
    assert(suffix =~= seq!['.', a, b, c]);
    let n = s.len() as int;
    if 4 <= n {
        let tail = lowercase(s).subrange(n - 4, n);
        if tail == suffix {
            assert(tail[0] == suffix[0]);
            assert(tail[1] == suffix[1]);
            assert(tail[2] == suffix[2]);
            assert(tail[3] == suffix[3]);
        }
        if fold_case(s[n - 4]) == '.' && fold_case(s[n - 3]) == a && fold_case(s[n - 2]) == b
            && fold_case(s[n - 1]) == c {
            assert(tail =~= suffix);
        }
    }
}

/// The lower-cased `s` ends in a dot and four given letters exactly when
/// its last five characters are that dot and those letters in either case.
proof fn lemma_four_letter_extension(s: Seq<char>, a: char, b: char, c: char, d: char)
    ensures
        has_extension(s, seq![a, b, c, d]) <==> ({
            &&& 5 <= s.len()
            &&& fold_case(s[s.len() - 5]) == '.'
            &&& fold_case(s[s.len() - 4]) == a
            &&& fold_case(s[s.len() - 3]) == b
            &&& fold_case(s[s.len() - 2]) == c
            &&& fold_case(s[s.len() - 1]) == d
        }),
{
    let suffix = seq!['.'] + seq![a, b, c, d];
    assert(suffix =~= seq!['.', a, b, c, d]);
    let n = s.len() as int;
    if 5 <= n {
        let tail = lowercase(s).subrange(n - 5, n);
        if tail == suffix {
            assert(tail[0] == suffix[0]);
            assert(tail[1] == suffix[1]);
            assert(tail[2] == suffix[2]);
            assert(tail[3] == suffix[3]);
            assert(tail[4] == suffix[4]);
        }
        if fold_case(s[n - 5]) == '.' && fold_case(s[n - 4]) == a && fold_case(s[n - 3]) == b
            && fold_case(s[n - 2]) == c && fold_case(s[n - 1]) == d {
            assert(tail =~= suffix);
        }
    }
}

/// A path is an image exactly when the lower-cased path itself ends in a dot
/// and a supported extension: no extension reaches across a `/`.
proof fn lemma_image_path_by_tail(path: Seq<char>)
    ensures
        is_image_path(path) == is_image_name(path),
{
    let dot = seq!['.'];
    assert forall|ext: Seq<char>| is_supported_extension(ext) implies has_extension(
        file_name(path),
        ext,
    ) == has_extension(path, ext) by {
        let suffix = dot + ext;
        assert forall|i: int| 0 <= i < suffix.len() implies suffix[i] != '/' by {
            if i > 0 {
                assert(suffix[i] == ext[i - 1]);
            }
        }
        lemma_suffix_of_file_name(path, suffix);
    }
    assert(is_supported_extension(seq!['g', 'i', 'f']));
    assert(is_supported_extension(seq!['j', 'p', 'e', 'g']));
    assert(is_supported_extension(seq!['j', 'p', 'g']));
    assert(is_supported_extension(seq!['p', 'n', 'g']));
    assert(is_supported_extension(seq!['w', 'e', 'b', 'p']));
}

/// Whether `c`, in either case, is the lower-case letter `lower`.
fn same_letter(c: char, lower: char) -> (same: bool)
    requires
        'a' <= lower && lower <= 'z',
    ensures
        same == (fold_case(c) == lower),
{
    if c == lower {
        true
    } else if 'A' <= c && c <= 'Z' {
        (c as u8) + 32 == lower as u8
    } else {
        false
    }
}

/// Whether three characters, in any letter case, spell three lower-case
/// letters.
fn spells_three(found: (char, char, char), letters: (char, char, char)) -> (same: bool)
    requires
        'a' <= letters.0 && letters.0 <= 'z',
        'a' <= letters.1 && letters.1 <= 'z',
        'a' <= letters.2 && letters.2 <= 'z',
    ensures
        same == (fold_case(found.0) == letters.0 && fold_case(found.1) == letters.1 && fold_case(
            found.2,
        ) == letters.2),
{
    same_letter(found.0, letters.0) && same_letter(found.1, letters.1) && same_letter(
        found.2,
        letters.2,
    )
}

/// Decides whether `path` denotes a supported image: whether its final
/// segment ends, in any letter case, in `.gif`, `.jpeg`, `.jpg`, `.png` or
/// `.webp`.
pub fn is_image(path: &str) -> (image: bool)
    ensures
        image == is_image_path(path@),
{
    proof {
        lemma_image_path_by_tail(path@);
        lemma_three_letter_extension(path@, 'g', 'i', 'f');
        lemma_three_letter_extension(path@, 'j', 'p', 'g');
        lemma_three_letter_extension(path@, 'p', 'n', 'g');
        lemma_four_letter_extension(path@, 'j', 'p', 'e', 'g');
        lemma_four_letter_extension(path@, 'w', 'e', 'b', 'p');
    }
    let n = path.unicode_len();
    if n < 4 {
        return false;
    }
    let last = (path.get_char(n - 3), path.get_char(n - 2), path.get_char(n - 1));
    let before = path.get_char(n - 4);
    if before == '.' {
        return spells_three(last, ('g', 'i', 'f')) || spells_three(last, ('j', 'p', 'g'))
            || spells_three(last, ('p', 'n', 'g'));
    }
    if n < 5 {
        return false;
    }
    let dot = path.get_char(n - 5);
    dot == '.' && ((same_letter(before, 'j') && spells_three(last, ('p', 'e', 'g'))) || (
    same_letter(before, 'w') && spells_three(last, ('e', 'b', 'p'))))
}

/// A name that ends, in any letter case, in a dot and `ext` splits into a
/// stem, a dot and an extension whose lower-case form is `ext`.
proof fn lemma_split_at_extension(path: Seq<char>, ext: Seq<char>)
    requires
        has_extension(path, ext),
    ensures
        ext.len() < path.len(),
        path == with_extension(
            path.subrange(0, path.len() - ext.len() - 1),
            path.subrange(path.len() - ext.len(), path.len() as int),
        ),
        lowercase(path.subrange(path.len() - ext.len(), path.len() as int)) == ext,
{
    let n = path.len() as int;
    let m = ext.len() as int;
    let suffix = seq!['.'] + ext;
    let tail = lowercase(path).subrange(n - m - 1, n);
    assert(tail[0] == suffix[0]);
    assert(path[n - m - 1] == '.');
    let stem = path.subrange(0, n - m - 1);
    let found = path.subrange(n - m, n);
    assert(path =~= with_extension(stem, found));
    assert(lowercase(found) =~= ext) by {
        assert forall|i: int| 0 <= i < m implies #[trigger] lowercase(found)[i] == ext[i] by {
            assert(tail[i + 1] == suffix[i + 1]);
        }
    }
}

/// A stem followed by a dot and a supported extension, the extension in any
/// letter case, is an image; and every image is of that form. A path with
/// another extension, or with none, is no image.
pub proof fn lemma_images_are_the_paths_with_supported_extension(path: Seq<char>)
    ensures
        is_image_path(path) <==> exists|stem: Seq<char>, ext: Seq<char>|
            path == #[trigger] with_extension(stem, ext) && is_supported_extension(lowercase(ext)),
{
    lemma_image_path_by_tail(path);
    let n = path.len() as int;
    if is_image_path(path) {
        let ext = if has_extension(path, seq!['g', 'i', 'f']) {
            seq!['g', 'i', 'f']
        } else if has_extension(path, seq!['j', 'p', 'e', 'g']) {
            seq!['j', 'p', 'e', 'g']
        } else if has_extension(path, seq!['j', 'p', 'g']) {
            seq!['j', 'p', 'g']
        } else if has_extension(path, seq!['p', 'n', 'g']) {
            seq!['p', 'n', 'g']
        } else {
            seq!['w', 'e', 'b', 'p']
        };
        lemma_split_at_extension(path, ext);
        let stem = path.subrange(0, n - ext.len() - 1);
        let found = path.subrange(n - ext.len(), n);
        assert(path == with_extension(stem, found) && is_supported_extension(lowercase(found)));
    }
    if exists|stem: Seq<char>, ext: Seq<char>|
        path == #[trigger] with_extension(stem, ext) && is_supported_extension(lowercase(ext)) {
        let (stem, ext) = choose|stem: Seq<char>, ext: Seq<char>|
            path == #[trigger] with_extension(stem, ext) && is_supported_extension(lowercase(ext));
        let m = ext.len() as int;
        let suffix = seq!['.'] + lowercase(ext);
        assert(lowercase(path).subrange(n - m - 1, n) =~= suffix);
        assert(has_extension(path, lowercase(ext)));
    }
}

} // verus!
