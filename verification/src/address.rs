//! Paths under a root, percent encoding and query strings.

use crate::text;
use opendal_core::raw::QueryPairsWriter;
use vstd::prelude::*;
use vstd::string::*;
use vstd::utf8::*;

verus! {

/// `opendal_core::raw::QueryPairsWriter`: known by `writer_url` and `writer_has_query`.
#[verifier::external_type_specification]
#[verifier::external_body]
pub struct ExQueryPairsWriter(opendal_core::raw::QueryPairsWriter);

/// Whether a root has the form `/` or `/abc/def/`: it starts and ends with a slash.
pub open spec fn rooted(root: Seq<char>) -> bool {
    root.len() > 0 && root[0] == '/' && root.last() == '/'
}

/// Whether a path is relative to the root: the root itself, written `/`, or a text that does
/// not start with a slash.
pub open spec fn relative(path: Seq<char>) -> bool {
    path == seq!['/'] || path.len() == 0 || path[0] != '/'
}

/// The path from the start of the filesystem, without a leading slash of the root.
pub open spec fn absolute(root: Seq<char>, path: Seq<char>) -> Seq<char> {
    if path == seq!['/'] {
        root.skip(1)
    } else {
        root.skip(1) + path
    }
}

/// The path from the start of the filesystem, without slashes at its end.
pub open spec fn absolute_trimmed(root: Seq<char>, path: Seq<char>) -> Seq<char> {
    text::trim_end_char(absolute(root, path), '/')
}

/// `opendal_core::raw::build_abs_path`: the root without its first slash, followed by the path
/// unless the path is `/`. The function demands the form of root and path that `requires`
/// states.
pub assume_specification[ opendal_core::raw::build_abs_path ](root: &str, path: &str) -> (r: String)
    requires
        rooted(root@),
        relative(path@),
    ensures
        r@ == absolute(root@, path@),
;

/// Whether percent encoding keeps the character: letters, digits, and `/ - _ . ! ~ * ' ( )`.
pub open spec fn kept(c: char) -> bool {
    ||| 'a' <= c <= 'z'
    ||| 'A' <= c <= 'Z'
    ||| '0' <= c <= '9'
    ||| c == '/' || c == '-' || c == '_' || c == '.' || c == '!'
    ||| c == '~' || c == '*' || c == '\'' || c == '(' || c == ')'
}

/// The upper-case hexadecimal digit.
pub open spec fn hex_digit(d: int) -> char {
    if d < 10 {
        ('0' as u32 + d) as char
    } else {
        ('A' as u32 + (d - 10)) as char
    }
}

/// What percent encoding writes for one byte.
pub open spec fn percent_byte(b: u8) -> Seq<char> {
    if kept(b as char) {
        seq![b as char]
    } else {
        seq!['%', hex_digit(b as int / 16), hex_digit(b as int % 16)]
    }
}

/// What percent encoding writes for a sequence of bytes.
pub open spec fn percent_bytes(b: Seq<u8>) -> Seq<char>
    decreases b.len(),
{
    if b.len() == 0 {
        seq![]
    } else {
        percent_byte(b[0]) + percent_bytes(b.skip(1))
    }
}

/// A text, percent encoded by the bytes of its UTF-8 form.
pub open spec fn percent_encoded(s: Seq<char>) -> Seq<char> {
    percent_bytes(encode_utf8(s))
}

/// `opendal_core::raw::percent_encode_path`: every byte of the UTF-8 form that is neither a
/// letter nor a digit nor one of `/ - _ . ! ~ * ' ( )` becomes `%` and two upper-case
/// hexadecimal digits.
pub assume_specification[ opendal_core::raw::percent_encode_path ](path: &str) -> (r: String)
    ensures
        r@ == percent_encoded(path@),
;

proof fn lemma_percent_injective(a: Seq<u8>, b: Seq<u8>)
    requires
        percent_bytes(a) == percent_bytes(b),
    ensures
        a == b,
    decreases a.len(),
{
    let s = percent_bytes(a);
    let t = percent_bytes(b);
    if a.len() > 0 && b.len() > 0 {
        assert(s[0] == t[0]);
        if !kept(a[0] as char) && !kept(b[0] as char) {
            assert(s[1] == t[1] && s[2] == t[2]);
        }
        assert(a[0] == b[0]);
        let n = percent_byte(a[0]).len() as int;
        assert(s.skip(n) =~= percent_bytes(a.skip(1)));
        assert(t.skip(n) =~= percent_bytes(b.skip(1)));
        lemma_percent_injective(a.skip(1), b.skip(1));
        assert(a =~= seq![a[0]] + a.skip(1));
        assert(b =~= seq![b[0]] + b.skip(1));
    } else if a.len() > 0 {
        assert(s.len() > 0);
    } else if b.len() > 0 {
        assert(t.len() > 0);
    }
    assert(a =~= b);
}

/// Two texts never have the same percent-encoded form.
pub proof fn law_percent_encoding_injective(a: Seq<char>, b: Seq<char>)
    ensures
        percent_encoded(a) == percent_encoded(b) <==> a == b,
{
    if percent_encoded(a) == percent_encoded(b) {
        lemma_percent_injective(encode_utf8(a), encode_utf8(b));
        encode_utf8_decode_utf8(a);
        encode_utf8_decode_utf8(b);
    }
}

/// Whether percent-encoded text can hold the character.
pub open spec fn encoded_char(c: char) -> bool {
    c == '%' || kept(c)
}

proof fn lemma_percent_chars(b: Seq<u8>)
    ensures
        forall|i: int|
            0 <= i < percent_bytes(b).len() ==> encoded_char(#[trigger] percent_bytes(b)[i]),
    decreases b.len(),
{
    if b.len() > 0 {
        let n = percent_byte(b[0]).len() as int;
        lemma_percent_chars(b.skip(1));
        assert forall|i: int| 0 <= i < percent_bytes(b).len() implies encoded_char(
            #[trigger] percent_bytes(b)[i],
        ) by {
            if i >= n {
                assert(percent_bytes(b)[i] == percent_bytes(b.skip(1))[i - n]);
            }
        }
    }
}

/// Percent-encoded text holds only `%` and the characters that encoding keeps. So it ends no
/// path and starts no further query pair: it holds neither `?` nor `#`, `&`, `=` or white
/// space.
pub proof fn law_percent_encoding_safe(s: Seq<char>)
    ensures
        forall|i: int|
            0 <= i < percent_encoded(s).len() ==> {
                let c = #[trigger] percent_encoded(s)[i];
                encoded_char(c) && c != '?' && c != '#' && c != '&' && c != '='
                    && !text::white_space(c)
            },
{
    lemma_percent_chars(encode_utf8(s));
}

/// Only the empty text is encoded as the empty text.
pub proof fn law_percent_encoding_empty(s: Seq<char>)
    ensures
        percent_encoded(s).len() == 0 <==> s.len() == 0,
{
    law_percent_encoding_injective(s, seq![]);
    assert(percent_encoded(seq![]) =~= seq![]);
    if percent_encoded(s).len() == 0 {
        assert(percent_encoded(s) =~= percent_encoded(seq![]));
    }
}

/// A key and a value as a query string shows them: without `=` where the value is empty.
pub open spec fn query_pair(key: Seq<char>, value: Seq<char>) -> Seq<char> {
    if value.len() == 0 {
        key
    } else {
        key + seq!['='] + value
    }
}

/// An address with its query: `?` before the first pair, `&` before each further one.
pub open spec fn with_query(base: Seq<char>, pairs: Seq<(Seq<char>, Seq<char>)>) -> Seq<char>
    decreases pairs.len(),
{
    if pairs.len() == 0 {
        base
    } else {
        let sep = if pairs.len() == 1 {
            '?'
        } else {
            '&'
        };
        with_query(base, pairs.drop_last()) + seq![sep] + query_pair(pairs.last().0, pairs.last().1)
    }
}

/// The address that a `QueryPairsWriter` has written so far.
pub uninterp spec fn writer_url(w: opendal_core::raw::QueryPairsWriter) -> Seq<char>;

/// Whether a `QueryPairsWriter` has written a pair.
pub uninterp spec fn writer_has_query(w: opendal_core::raw::QueryPairsWriter) -> bool;

/// `QueryPairsWriter::new`: starts from the base, with no pair written.
pub assume_specification[ QueryPairsWriter::new ](s: &str) -> (w: QueryPairsWriter)
    ensures
        writer_url(w) == s@,
        !writer_has_query(w),
;

/// `QueryPairsWriter::push`: writes `?` before the first pair and `&` before each further one,
/// then the key, then `=` and the value unless the value is empty.
pub assume_specification[ QueryPairsWriter::push ](
    w: QueryPairsWriter,
    key: &str,
    value: &str,
) -> (r: QueryPairsWriter)
    ensures
        writer_has_query(r),
        writer_url(r) == writer_url(w) + seq![
            if writer_has_query(w) {
                '&'
            } else {
                '?'
            },
        ] + query_pair(key@, value@),
;

/// `QueryPairsWriter::finish`: the address written.
pub assume_specification[ QueryPairsWriter::finish ](w: QueryPairsWriter) -> (r: String)
    ensures
        r@ == writer_url(w),
;

/// Whether a writer has written these pairs after this base.
pub open spec fn wrote(
    w: opendal_core::raw::QueryPairsWriter,
    base: Seq<char>,
    pairs: Seq<(Seq<char>, Seq<char>)>,
) -> bool {
    writer_url(w) == with_query(base, pairs) && writer_has_query(w) == (pairs.len() > 0)
}

/// One more pair.
pub proof fn lemma_wrote_push(
    w: opendal_core::raw::QueryPairsWriter,
    r: opendal_core::raw::QueryPairsWriter,
    base: Seq<char>,
    pairs: Seq<(Seq<char>, Seq<char>)>,
    key: Seq<char>,
    value: Seq<char>,
)
    requires
        wrote(w, base, pairs),
        writer_has_query(r),
        writer_url(r) == writer_url(w) + seq![
            if writer_has_query(w) {
                '&'
            } else {
                '?'
            },
        ] + query_pair(key, value),
    ensures
        wrote(r, base, pairs.push((key, value))),
{
    assert(pairs.push((key, value)).drop_last() =~= pairs);
}

/// The base, a slash, the container, a slash, and the rest.
pub open spec fn address(endpoint: Seq<char>, filesystem: Seq<char>, rest: Seq<char>) -> Seq<char> {
    endpoint + seq!['/'] + filesystem + seq!['/'] + rest
}

/// A slash more at the end of a path makes no difference once the slashes there are dropped.
pub proof fn law_absolute_trimmed_slash(root: Seq<char>, path: Seq<char>)
    ensures
        absolute_trimmed(root, path + seq!['/']) == absolute_trimmed(root, path),
{
    let whole = path + seq!['/'];
    let p = absolute(root, path);
    let q = absolute(root, whole);
    if path.len() == 0 {
        assert(whole =~= seq!['/']);
        assert(q =~= p);
    } else {
        assert(whole.len() > 1);
        assert(q.last() == '/');
        if path == seq!['/'] {
            reveal_with_fuel(text::trim_end_char, 3);
            assert(q.drop_last().last() == '/');
            assert(q.drop_last().drop_last() =~= p);
        } else {
            assert(q.drop_last() =~= p);
        }
    }
}

/// The names of a path: what stands between its slashes, without the empty pieces.
pub open spec fn path_names(path: Seq<char>) -> Seq<Seq<char>> {
    text::non_empty_parts(text::split_on(path, '/'))
}

/// The directory that holds a path: all its names but the last. `None` where only one name or
/// none is there.
pub open spec fn parent_of(path: Seq<char>) -> Option<Seq<char>> {
    let names = path_names(path);
    if names.len() > 1 {
        Some(text::join_with(names.drop_last(), seq!['/']))
    } else {
        None
    }
}

proof fn lemma_non_empty_concat(a: Seq<Seq<char>>, b: Seq<Seq<char>>)
    ensures
        text::non_empty_parts(a + b) == text::non_empty_parts(a) + text::non_empty_parts(b),
    decreases b.len(),
{
    if b.len() == 0 {
        assert(a + b =~= a);
        assert(text::non_empty_parts(a) + seq![] =~= text::non_empty_parts(a));
    } else {
        assert((a + b).drop_last() =~= a + b.drop_last());
        lemma_non_empty_concat(a, b.drop_last());
        assert(text::non_empty_parts(a + b) =~= text::non_empty_parts(a)
            + text::non_empty_parts(b));
    }
}

/// Two paths with a slash between them have the names of both.
pub proof fn law_path_names_concat(a: Seq<char>, b: Seq<char>)
    ensures
        path_names(a + seq!['/'] + b) == path_names(a) + path_names(b),
{
    text::lemma_split_concat(a, b, '/');
    lemma_non_empty_concat(text::split_on(a, '/'), text::split_on(b, '/'));
}

proof fn lemma_path_names_empty()
    ensures
        path_names(seq![]) == Seq::<Seq<char>>::empty(),
{
    let e = Seq::<char>::empty();
    assert(text::split_on(e, '/') =~= seq![e]);
    assert(text::non_empty_parts(seq![e]) =~= seq![]) by {
        reveal_with_fuel(text::non_empty_parts, 2);
    }
}

/// Slashes at the end of a path do not change its names.
pub proof fn law_path_names_trimmed(path: Seq<char>)
    ensures
        path_names(text::trim_end_char(path, '/')) == path_names(path),
    decreases path.len(),
{
    if path.len() > 0 && path.last() == '/' {
        law_path_names_trimmed(path.drop_last());
        law_path_names_concat(path.drop_last(), seq![]);
        lemma_path_names_empty();
        assert(path.drop_last() + seq!['/'] + seq![] =~= path);
        assert(path_names(path.drop_last()) + seq![] =~= path_names(path.drop_last()));
    }
}

/// Whether a text can be a name of a path.
pub open spec fn path_name(s: Seq<char>) -> bool {
    s.len() > 0 && forall|i: int| 0 <= i < s.len() ==> s[i] != '/'
}

proof fn lemma_non_empty_names(parts: Seq<Seq<char>>)
    requires
        text::split_free(parts, '/'),
    ensures
        forall|i: int|
            0 <= i < text::non_empty_parts(parts).len() ==> path_name(
                #[trigger] text::non_empty_parts(parts)[i],
            ),
    decreases parts.len(),
{
    if parts.len() > 0 {
        let init = parts.drop_last();
        assert forall|i: int, j: int|
            0 <= i < init.len() && 0 <= j < init[i].len() implies #[trigger] init[i][j] != '/' by {
            assert(parts[i][j] != '/');
        }
        lemma_non_empty_names(init);
        assert forall|j: int| 0 <= j < parts.last().len() implies parts.last()[j] != '/' by {
            assert(parts[parts.len() - 1][j] != '/');
        }
        let all = text::non_empty_parts(parts);
        let rest = text::non_empty_parts(init);
        assert forall|i: int| 0 <= i < all.len() implies path_name(#[trigger] all[i]) by {
            if i < rest.len() {
                assert(all[i] == rest[i]);
            }
        }
    }
}

/// Every name of a path is one.
pub proof fn law_path_names(path: Seq<char>)
    ensures
        forall|i: int|
            0 <= i < path_names(path).len() ==> path_name(#[trigger] path_names(path)[i]),
{
    text::lemma_split_pieces(path, '/');
    lemma_non_empty_names(text::split_on(path, '/'));
}

proof fn lemma_non_empty_all(parts: Seq<Seq<char>>)
    requires
        forall|i: int| 0 <= i < parts.len() ==> (#[trigger] parts[i]).len() > 0,
    ensures
        text::non_empty_parts(parts) == parts,
    decreases parts.len(),
{
    if parts.len() > 0 {
        let init = parts.drop_last();
        assert forall|i: int| 0 <= i < init.len() implies (#[trigger] init[i]).len() > 0 by {
            assert(init[i] == parts[i]);
        }
        lemma_non_empty_all(init);
        assert(parts[parts.len() - 1].len() > 0);
        assert(init.push(parts.last()) =~= parts);
    } else {
        assert(parts =~= seq![]);
    }
}

/// Names joined by slashes are the names of the path that they make.
pub proof fn law_path_names_joined(names: Seq<Seq<char>>)
    requires
        forall|i: int| 0 <= i < names.len() ==> path_name(#[trigger] names[i]),
    ensures
        path_names(text::join_with(names, seq!['/'])) == names,
{
    if names.len() == 0 {
        lemma_path_names_empty();
        assert(names =~= seq![]);
    } else {
        assert forall|i: int, j: int|
            0 <= i < names.len() && 0 <= j < names[i].len() implies #[trigger] names[i][j]
            != '/' by {
            assert(path_name(names[i]));
        }
        text::lemma_split_join(names, '/');
        assert forall|i: int| 0 <= i < names.len() implies (#[trigger] names[i]).len() > 0 by {
            assert(path_name(names[i]));
        }
        lemma_non_empty_all(names);
    }
}

proof fn lemma_join_ends(parts: Seq<Seq<char>>)
    requires
        parts.len() > 0,
        forall|i: int| 0 <= i < parts.len() ==> path_name(#[trigger] parts[i]),
    ensures
        text::join_with(parts, seq!['/']).len() > 0,
        text::join_with(parts, seq!['/'])[0] != '/',
        text::join_with(parts, seq!['/']).last() != '/',
    decreases parts.len(),
{
    let all = text::join_with(parts, seq!['/']);
    let last = parts.last();
    assert(path_name(parts[parts.len() - 1]));
    assert(last[0] != '/' && last[last.len() - 1] != '/');
    if parts.len() > 1 {
        let init = parts.drop_last();
        assert forall|i: int| 0 <= i < init.len() implies path_name(#[trigger] init[i]) by {
            assert(init[i] == parts[i]);
        }
        lemma_join_ends(init);
        let head = text::join_with(init, seq!['/']);
        assert(all[0] == head[0]);
        assert(all.last() == last.last());
    }
}

/// A parent is a path relative to the root, and has no slash at either end. Its names are those
/// of the path but the last.
pub proof fn law_parent(path: Seq<char>)
    ensures
        parent_of(path) matches Some(parent) ==> {
            &&& relative(parent)
            &&& parent.len() > 0
            &&& parent[0] != '/'
            &&& parent.last() != '/'
            &&& path_names(parent) == path_names(path).drop_last()
        },
{
    let names = path_names(path);
    if names.len() > 1 {
        law_path_names(path);
        let init = names.drop_last();
        assert forall|i: int| 0 <= i < init.len() implies path_name(#[trigger] init[i]) by {
            assert(init[i] == names[i]);
        }
        lemma_join_ends(init);
        law_path_names_joined(init);
    }
}

/// The parent of a directory joined with a name is the directory; slashes at the end make no
/// difference.
pub proof fn law_parent_of_joined(names: Seq<Seq<char>>, last: Seq<char>)
    requires
        names.len() > 0,
        forall|i: int| 0 <= i < names.len() ==> path_name(#[trigger] names[i]),
        path_name(last),
    ensures
        parent_of(text::join_with(names.push(last), seq!['/'])) == Some(
            text::join_with(names, seq!['/']),
        ),
        parent_of(text::join_with(names.push(last), seq!['/']) + seq!['/']) == Some(
            text::join_with(names, seq!['/']),
        ),
{
    let all = names.push(last);
    let path = text::join_with(all, seq!['/']);
    law_path_names_joined(all);
    assert(all.drop_last() =~= names);
    law_path_names_concat(path, seq![]);
    lemma_path_names_empty();
    assert(path + seq!['/'] + seq![] =~= path + seq!['/']);
    assert(all + seq![] =~= all);
}

/// The path of the directory that holds a path.
pub fn parent_path(path: &str) -> (r: Option<String>)
    ensures
        match r {
            Some(p) => parent_of(path@) == Some(p@),
            None => parent_of(path@) is None,
        },
{
    let target = text::trim_end_text(path, '/');
    let pieces = text::split_text(target.as_str(), '/');
    let mut parts = text::non_empty(pieces);
    proof {
        law_path_names_trimmed(path@);
        reveal_strlit("/");
        assert("/"@ =~= seq!['/']);
    }
    let ghost names = text::texts(parts@);
    if parts.len() > 0 {
        parts.pop();
        proof {
            assert(text::texts(parts@) =~= names.drop_last());
        }
    }
    if parts.len() > 0 {
        Some(text::join_texts(&parts, "/"))
    } else {
        None
    }
}

/// A path has a parent exactly if it has two names or more, and the parent is written with one
/// slash between each two names.
pub proof fn law_parent_exists(path: Seq<char>)
    ensures
        path_names(path) == text::split_on(path, '/').filter(|p: Seq<char>| p.len() > 0),
        parent_of(path) is Some <==> path_names(path).len() > 1,
        parent_of(path) matches Some(parent) ==> text::split_on(parent, '/') == path_names(
            path,
        ).drop_last(),
{
    text::law_non_empty_kept(text::split_on(path, '/'));
    law_path_names(path);
    let names = path_names(path);
    if names.len() > 1 {
        let init = names.drop_last();
        assert forall|i: int, j: int|
            0 <= i < init.len() && 0 <= j < init[i].len() implies #[trigger] init[i][j] != '/' by {
            assert(path_name(names[i]));
        }
        text::lemma_split_join(init, '/');
    }
}

} // verus!
