//! What a changed file does to the page, told by the name of the file.

use vstd::prelude::*;

use crate::path::{components, extension, file_name, join_path, last_dot};
use crate::path_laws::{is_name, law_join_adds_a_component, lemma_name_is_normal};
use crate::reload::{classified, ReloadModel};
use crate::text::lower;
use crate::text_laws::{law_small_letters_compare_by_letter, reads_as};

verus! {

/* ------------------------------------------------------------------ extensions */

/// Whether a text can stand before a name in a path: nothing, or something that
/// ends in a separator.
pub open spec fn leads_to_a_name(lead: Seq<char>) -> bool {
    lead.len() == 0 || lead.last() == '/'
}

/// A path that ends in a name leads to what has that name.
pub proof fn law_a_path_leads_to_its_last_name(lead: Seq<char>, name: Seq<char>)
    requires
        leads_to_a_name(lead),
        is_name(name),
    ensures
        file_name(lead + name) == Some(name),
{
    law_join_adds_a_component(lead, name);
    assert(name[0] != '/');
    assert(join_path(lead, name) == lead + name);
    assert(components(lead + name).last() == name);
    lemma_name_is_normal(name);
}

proof fn lemma_last_dot(s: Seq<char>, at: int, upto: int)
    requires
        0 <= at < upto <= s.len(),
        s[at] == '.',
        forall|i: int| at < i < upto ==> s[i] != '.',
    ensures
        last_dot(s, upto) == Some(at),
    decreases upto,
{
    if at < upto - 1 {
        lemma_last_dot(s, at, upto - 1);
    }
}

proof fn lemma_no_dot(s: Seq<char>, upto: int)
    requires
        upto <= s.len(),
        forall|i: int| 0 <= i < upto ==> s[i] != '.',
    ensures
        last_dot(s, upto) is None,
    decreases upto,
{
    if upto > 0 {
        lemma_no_dot(s, upto - 1);
    }
}

/// The extension of a file is what follows the last dot of its name, whatever
/// stands before that dot, other dots too.
pub proof fn law_the_extension_follows_the_last_dot(
    lead: Seq<char>,
    stem: Seq<char>,
    ext: Seq<char>,
)
    requires
        leads_to_a_name(lead),
        stem.len() > 0,
        !ext.contains('.'),
        is_name(stem + seq!['.'] + ext),
    ensures
        extension(lead + (stem + seq!['.'] + ext)) == Some(ext),
{
    let name = stem + seq!['.'] + ext;
    law_a_path_leads_to_its_last_name(lead, name);
    let at = stem.len() as int;
    assert(name[at] == '.');
    assert forall|i: int| at < i < name.len() implies name[i] != '.' by {
        assert(name[i] == ext[i - at - 1]);
        assert(ext.contains(ext[i - at - 1]));
    }
    lemma_last_dot(name, at, name.len() as int);
    assert(name.skip(at + 1) =~= ext);
}

/// A name without a dot, or with none but the one it begins with, has no
/// extension.
pub proof fn law_names_without_a_dot_have_no_extension(lead: Seq<char>, name: Seq<char>)
    requires
        leads_to_a_name(lead),
        is_name(name),
        forall|i: int| 1 <= i < name.len() ==> name[i] != '.',
    ensures
        extension(lead + name) is None,
{
    law_a_path_leads_to_its_last_name(lead, name);
    if name[0] == '.' {
        lemma_last_dot(name, 0, name.len() as int);
    } else {
        lemma_no_dot(name, name.len() as int);
    }
}

/* -------------------------------------------------------------------- classes */

/// Whether an extension, in letters of any case, is that of an image.
pub open spec fn reads_as_image(ext: Seq<char>) -> bool {
    ||| reads_as(ext, seq!['p', 'n', 'g'])
    ||| reads_as(ext, seq!['j', 'p', 'g'])
    ||| reads_as(ext, seq!['j', 'p', 'e', 'g'])
    ||| reads_as(ext, seq!['g', 'i', 'f'])
    ||| reads_as(ext, seq!['w', 'e', 'b', 'p'])
    ||| reads_as(ext, seq!['a', 'v', 'i', 'f'])
    ||| reads_as(ext, seq!['b', 'm', 'p'])
    ||| reads_as(ext, seq!['i', 'c', 'o'])
    ||| reads_as(ext, seq!['s', 'v', 'g'])
}

/// Whether an extension, in letters of any case, is that of a stylesheet.
pub open spec fn reads_as_stylesheet(ext: Seq<char>) -> bool {
    reads_as(ext, seq!['c', 's', 's'])
}

proof fn lemma_kinds(ext: Seq<char>)
    ensures
        (lower(ext) == "css"@) == reads_as_stylesheet(ext),
        crate::reload::is_image_extension(lower(ext)) == reads_as_image(ext),
        !(reads_as_stylesheet(ext) && reads_as_image(ext)),
{
    reveal_strlit("css");
    reveal_strlit("png");
    reveal_strlit("jpg");
    reveal_strlit("jpeg");
    reveal_strlit("gif");
    reveal_strlit("webp");
    reveal_strlit("avif");
    reveal_strlit("bmp");
    reveal_strlit("ico");
    reveal_strlit("svg");
    assert("css"@ =~= seq!['c', 's', 's']);
    assert("png"@ =~= seq!['p', 'n', 'g']);
    assert("jpg"@ =~= seq!['j', 'p', 'g']);
    assert("jpeg"@ =~= seq!['j', 'p', 'e', 'g']);
    assert("gif"@ =~= seq!['g', 'i', 'f']);
    assert("webp"@ =~= seq!['w', 'e', 'b', 'p']);
    assert("avif"@ =~= seq!['a', 'v', 'i', 'f']);
    assert("bmp"@ =~= seq!['b', 'm', 'p']);
    assert("ico"@ =~= seq!['i', 'c', 'o']);
    assert("svg"@ =~= seq!['s', 'v', 'g']);
    law_small_letters_compare_by_letter(ext, "css"@);
    law_small_letters_compare_by_letter(ext, "png"@);
    law_small_letters_compare_by_letter(ext, "jpg"@);
    law_small_letters_compare_by_letter(ext, "jpeg"@);
    law_small_letters_compare_by_letter(ext, "gif"@);
    law_small_letters_compare_by_letter(ext, "webp"@);
    law_small_letters_compare_by_letter(ext, "avif"@);
    law_small_letters_compare_by_letter(ext, "bmp"@);
    law_small_letters_compare_by_letter(ext, "ico"@);
    law_small_letters_compare_by_letter(ext, "svg"@);
    assert("css"@[0] == 'c');
    assert("png"@[0] == 'p' && "jpg"@[0] == 'j' && "jpeg"@[0] == 'j' && "gif"@[0] == 'g');
    assert("webp"@[0] == 'w' && "avif"@[0] == 'a' && "bmp"@[0] == 'b' && "ico"@[0] == 'i');
    assert("svg"@[0] == 's');
}

/// However a path is spelled, it leads to what its last component names, if that
/// is a name; and has the extension of that name.
pub proof fn law_the_last_component_is_the_name(p: Seq<char>, q: Seq<char>)
    ensures
        components(p) == components(q) ==> file_name(p) == file_name(q) && extension(p)
            == extension(q),
        file_name(p) is None ==> extension(p) is None,
        file_name(p) is None <==> components(p).len() == 0 || components(p).last() == seq!['/']
            || components(p).last() == seq!['.'] || components(p).last() == seq!['.', '.'],
        file_name(p) matches Some(name) ==> name == components(p).last(),
{
}

/// A change to a stylesheet swaps it, a change to an image fetches that again,
/// and a change to any other file reloads the page. What a file is goes by what
/// follows the last dot of its name, in letters of any case.
pub proof fn law_a_change_does_what_its_extension_says(
    lead: Seq<char>,
    stem: Seq<char>,
    ext: Seq<char>,
)
    requires
        leads_to_a_name(lead),
        stem.len() > 0,
        !ext.contains('.'),
        is_name(stem + seq!['.'] + ext),
    ensures
        ({
            let path = lead + (stem + seq!['.'] + ext);
            &&& reads_as_stylesheet(ext) ==> classified(path, false) == ReloadModel::Css(path)
            &&& reads_as_image(ext) ==> classified(path, false) == ReloadModel::Image(path)
            &&& !reads_as_stylesheet(ext) && !reads_as_image(ext) ==> classified(path, false)
                == ReloadModel::Full
            &&& classified(path, true) == ReloadModel::Full
        }),
{
    law_the_extension_follows_the_last_dot(lead, stem, ext);
    lemma_kinds(ext);
}

/// A change to a file without an extension reloads the page.
pub proof fn law_files_without_an_extension_reload_the_page(
    lead: Seq<char>,
    name: Seq<char>,
    full_reload: bool,
)
    requires
        leads_to_a_name(lead),
        is_name(name),
        forall|i: int| 1 <= i < name.len() ==> name[i] != '.',
    ensures
        classified(lead + name, full_reload) == ReloadModel::Full,
{
    law_names_without_a_dot_have_no_extension(lead, name);
}

/// What a change calls for goes by the extension alone, in letters of any case.
pub proof fn law_what_an_extension_calls_for(path: Seq<char>)
    ensures
        match extension(path) {
            Some(ext) => classified(path, false) == if reads_as_stylesheet(ext) {
                ReloadModel::Css(path)
            } else if reads_as_image(ext) {
                ReloadModel::Image(path)
            } else {
                ReloadModel::Full
            },
            None => classified(path, false) == ReloadModel::Full,
        },
        classified(path, true) == ReloadModel::Full,
{
    if let Some(ext) = extension(path) {
        lemma_kinds(ext);
    }
}

} // verus!
