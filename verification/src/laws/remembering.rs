//! What is remembered of a hunk from one run to the next: what it is, what it
//! holds and for how long a mark on it counts.

use crate::identity::{
    cache_dir, content_hash, content_text, delta_of, fnv, identity_key, lines_text, mark_kept, mark_of, mark_text,
    state_file, text_hash, Delta, SnapText,
};
use crate::model::{FileLines, Item};
use crate::paths::joined_path;
use crate::text::{numeral, padded_left, texts, trimmed};
use vstd::prelude::*;

verus! {

/// The hash is FNV-1a over 64 bits: it starts from the offset basis, and each
/// byte is mixed in and the sum multiplied by the prime.
pub proof fn law_the_hash_mixes_in_each_byte(bytes: Seq<u8>, b: u8)
    ensures
        fnv(Seq::empty()) == 0xcbf29ce484222325u64,
        fnv(bytes.push(b)) == (fnv(bytes) ^ (b as u64)).wrapping_mul(0x100000001b3u64),
{
    assert(bytes.push(b).drop_last() == bytes);
}

/// Lines are written one behind the other, each with its end.
pub proof fn law_each_line_ends(a: Seq<Seq<char>>, line: Seq<char>)
    ensures
        lines_text(Seq::empty()).len() == 0,
        lines_text(a.push(line)) == lines_text(a) + line + seq!['\n'],
{
    assert(a.push(line).drop_last() == a);
}

/// The content of a hunk is the lines it takes away and the lines it brings,
/// apart from each other, and nothing of what stands around them.
pub proof fn law_the_content_of_a_hunk_is_its_own_lines(
    it: Item,
    file: FileLines,
    above: Seq<Seq<char>>,
    gone: Seq<Seq<char>>,
    below: Seq<Seq<char>>,
    over: Seq<Seq<char>>,
    came: Seq<Seq<char>>,
    under: Seq<Seq<char>>,
)
    requires
        texts(file.0@) == above + gone + below,
        texts(file.1@) == over + came + under,
        gone.len() > 0,
        came.len() > 0,
        it.old_range[0] == above.len() + 1,
        it.old_range[1] == above.len() + gone.len(),
        it.new_range[0] == over.len() + 1,
        it.new_range[1] == over.len() + came.len(),
    ensures
        content_text(it, file) == lines_text(gone) + seq!['\0'] + lines_text(came),
{
    assert((above + gone + below).subrange(above.len() as int, (above.len() + gone.len()) as int) == gone);
    assert((over + came + under).subrange(over.len() as int, (over.len() + came.len()) as int) == came);
}

/// A hunk that takes nothing away has only the lines it brings, and one that
/// brings nothing only those it takes away.
pub proof fn law_a_side_without_lines_adds_nothing(it: Item, file: FileLines)
    ensures
        it.old_range[0] > it.old_range[1] ==> content_text(it, file) == seq!['\0'] + content_text(it, file).skip(1),
        it.new_range[0] > it.new_range[1] ==> content_text(it, file).len() > 0 && content_text(it, file).last() == '\0',
{
    let t = content_text(it, file);
    if it.old_range[0] > it.old_range[1] {
        assert(t[0] == '\0');
        assert(t == seq!['\0'] + t.skip(1));
    }
}

/// A hunk of a file that is not there has no content and no mark; any other has
/// both, and its mark is made of the revision, the path, what the hunk is and
/// what it holds.
pub proof fn law_a_mark_is_made_of_what_the_hunk_is(rev: Seq<char>, it: Item, sources: Map<Seq<char>, FileLines>)
    ensures
        mark_of(rev, it, sources) is Some <==> sources.dom().contains(it.path@),
        sources.dom().contains(it.path@) ==> content_hash(it, sources) == Some(
            text_hash(content_text(it, sources[it.path@])),
        ),
        sources.dom().contains(it.path@) ==> mark_of(rev, it, sources) == Some(
            text_hash(
                mark_text(rev, it.path@, identity_key(it), text_hash(content_text(it, sources[it.path@]))),
            ),
        ),
{
}

/// The text that a mark is made of starts with the revision and the path, so
/// that marks of one revision or file are not those of another.
pub proof fn law_a_mark_starts_with_its_revision(rev: Seq<char>, path: Seq<char>, identity: Seq<char>, content: u64)
    ensures
        ({
            let t = mark_text(rev, path, identity, content);
            let head = rev + seq!['\0'] + path + seq!['\0'] + identity + seq!['\0'];
            t.len() >= head.len() && t.take(head.len() as int) == head
        }),
{
    reveal_strlit("\0");
    assert("\0"@ == seq!['\0']);
    let t = mark_text(rev, path, identity, content);
    let head = rev + seq!['\0'] + path + seq!['\0'] + identity + seq!['\0'];
    assert(t.take(head.len() as int) == head);
}

/// A hunk without symbols goes by what encloses it, and else by nothing.
pub proof fn law_a_hunk_without_symbols_goes_by_what_encloses_it(it: Item)
    requires
        it.symbols@.len() == 0,
    ensures
        it.enclosing matches Some(e) ==> identity_key(it) == e@,
        it.enclosing is None ==> identity_key(it).len() == 0,
{
    reveal_strlit("");
}

/// A mark counts for ninety days and not longer.
pub proof fn law_a_mark_counts_for_ninety_days(now: u64, made: u64)
    ensures
        mark_kept(now, made) <==> now - made <= 90 * 24 * 60 * 60,
{
}

/// What is remembered stands in the cache of the user, or below their home
/// where no cache is set.
pub proof fn law_what_is_remembered_stands_in_the_cache(cache: Option<Seq<char>>, home: Option<Seq<char>>)
    ensures
        cache is Some && trimmed(cache->0).len() > 0 ==> cache_dir(cache, home) == cache,
        (cache is None || trimmed(cache->0).len() == 0) && home is Some && trimmed(home->0).len() > 0 ==> cache_dir(
            cache,
            home,
        ) == Some(joined_path(home->0, ".cache"@)),
        (cache is None || trimmed(cache->0).len() == 0) && (home is None || trimmed(home->0).len() == 0) ==> cache_dir(
            cache,
            home,
        ) is None,
{
}

/// A hunk that was not there is new, one with other content has changed, and
/// one with the same content has moved where it is read at another place.
pub proof fn law_a_hunk_is_compared_with_what_it_was(was: SnapText, is: SnapText)
    ensures
        delta_of(None, is) == Delta::New,
        was.c != is.c ==> delta_of(Some(was), is) == Delta::Changed,
        was.c == is.c && was.p != is.p ==> delta_of(Some(was), is) == Delta::Moved,
        was.c == is.c && was.d != is.d ==> delta_of(Some(was), is) == Delta::Moved,
        was == is ==> delta_of(Some(was), is) == Delta::Same,
{
}

/// What is remembered of a repository stands in a directory for its own kind of
/// thing, below the program's own in the cache, in a file for that repository.
pub proof fn law_each_kind_of_thing_has_its_directory(cache: Seq<char>, what: Seq<char>, root: Seq<char>)
    ensures
        state_file(cache, what, root) == joined_path(
            joined_path(joined_path(cache, "ordo"@), what),
            padded_left(numeral(text_hash(root) as nat, 16), '0', 16) + ".json"@,
        ),
{
}

} // verus!
