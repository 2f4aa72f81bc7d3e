//! Firmware updates over the web interface: what a request announces.
use vstd::prelude::*;

use crate::http::{HttpRequest, RequestModel};
use crate::text;

verus! {

/// What a firmware update announces.
#[derive(Clone, Copy, Debug, PartialEq, Eq)]
pub struct UpdateRequest {
    /// The size of the image in bytes.
    pub size: u32,
    /// The checksum of the image.
    pub crc: u32,
    /// How many bytes of body the request brings.
    pub content_length: usize,
}

/// The name and the value that a field of a query gives: what stands before the first equals
/// sign, and between the first and the second.
pub open spec fn query_pair(q: Seq<char>) -> (Seq<char>, Seq<char>) {
    let f = text::fields(q, "="@);
    (
        f[0],
        if f.len() > 1 {
            f[1]
        } else {
            Seq::empty()
        },
    )
}

/// The first place at or after `i` where `key` stands in `keys`.
pub open spec fn place_of(keys: Seq<Seq<char>>, key: Seq<char>, i: int) -> Option<int>
    decreases keys.len() - i,
{
    if i < 0 || i >= keys.len() {
        None
    } else if keys[i] == key {
        Some(i)
    } else {
        place_of(keys, key, i + 1)
    }
}

/// `place_of` is what its name says: `key` stands where it points and nowhere before; where it
/// points nowhere, `key` stands nowhere.
pub proof fn place_of_is_first(keys: Seq<Seq<char>>, key: Seq<char>, i: int)
    requires
        0 <= i,
    ensures
        match place_of(keys, key, i) {
            Some(k) => {
                &&& i <= k < keys.len()
                &&& keys[k] == key
                &&& forall|j: int| i <= j < k ==> keys[j] != key
            },
            None => forall|j: int| i <= j < keys.len() ==> keys[j] != key,
        },
    decreases keys.len() - i,
{
    if i < keys.len() && keys[i] != key {
        place_of_is_first(keys, key, i + 1);
    }
}

/// The names in a query.
pub open spec fn query_keys(parts: Seq<Seq<char>>) -> Seq<Seq<char>> {
    parts.map_values(|q: Seq<char>| query_pair(q).0)
}

/// The size and the checksum that a query gives: the numbers under the first `size` and under the
/// first `crc` behind it.
pub open spec fn params_of(parts: Seq<Seq<char>>) -> Option<(nat, nat)> {
    let keys = query_keys(parts);
    match place_of(keys, "size"@, 0) {
        Some(i) => match place_of(keys, "crc"@, i + 1) {
            Some(j) => match (
                text::number(text::trimmed(query_pair(parts[i]).1), u32::MAX as nat),
                text::number(text::trimmed(query_pair(parts[j]).1), u32::MAX as nat),
            ) {
                (Some(size), Some(crc)) => Some((size, crc)),
                _ => None,
            },
            None => None,
        },
        None => None,
    }
}

/// The size and the checksum that a path gives in its query, which stands between the first and
/// the second question mark.
pub open spec fn query_params(path: Seq<char>) -> Option<(nat, nat)> {
    let f = text::fields(path, "?"@);
    if f.len() > 1 {
        params_of(text::fields(f[1], "&"@))
    } else {
        None
    }
}

/// The name and the value that a field of a query gives.
fn query_pair_of<'a>(q: &'a str) -> (r: (&'a str, &'a str))
    ensures
        (r.0@, r.1@) == query_pair(q@),
{
    proof {
        reveal_strlit("=");
    }
    let f = text::split(q, "=");
    assert(text::texts(f@)[0] == f@[0]@);
    if f.len() > 1 {
        assert(text::texts(f@)[1] == f@[1]@);
        (f[0], f[1])
    } else {
        let none = q.substring_char(0, 0);
        assert(none@ =~= Seq::<char>::empty());
        (f[0], none)
    }
}

/// Looks up a name in the fields of a query, from `from` on: its place and its value.
fn lookup<'a>(parts: &Vec<&'a str>, key: &str, from: usize) -> (r: Option<(usize, &'a str)>)
    ensures
        match r {
            Some((i, value)) => {
                &&& i < parts@.len()
                &&& place_of(query_keys(text::texts(parts@)), key@, from as int) == Some(i as int)
                &&& value@ == query_pair(parts@[i as int]@).1
            },
            None => place_of(query_keys(text::texts(parts@)), key@, from as int) is None,
        },
{
    let ghost keys = query_keys(text::texts(parts@));
    let mut i: usize = from;
    while i < parts.len()
        invariant
            keys == query_keys(text::texts(parts@)),
            from <= i,
            place_of(keys, key@, from as int) == place_of(keys, key@, i as int),
        decreases parts@.len() - i,
    {
        let (name, value) = query_pair_of(parts[i]);
        assert(keys[i as int] == name@);
        if text::same_text(name, key) {
            return Some((i, value));
        }
        i += 1;
    }
    None
}

/// The size and the checksum that a path gives in its query.
pub fn parse_query(path: &str) -> (r: Option<(u32, u32)>)
    ensures
        match r {
            Some((size, crc)) => query_params(path@) == Some((size as nat, crc as nat)),
            None => query_params(path@) is None,
        },
{
    proof {
        reveal_strlit("?");
        reveal_strlit("&");
    }
    let f = text::split(path, "?");
    if f.len() < 2 {
        return None;
    }
    assert(text::texts(f@)[1] == f@[1]@);
    let parts = text::split(f[1], "&");
    let (i, size_text) = match lookup(&parts, "size", 0) {
        Some(found) => found,
        None => {
            return None;
        },
    };
    assert(text::texts(parts@)[i as int] == parts@[i as int]@);
    let (j, crc_text) = match lookup(&parts, "crc", i + 1) {
        Some(found) => found,
        None => {
            return None;
        },
    };
    assert(text::texts(parts@)[j as int] == parts@[j as int]@);
    let size = text::parse_number(text::trim(size_text), u32::MAX as u64);
    let crc = text::parse_number(text::trim(crc_text), u32::MAX as u64);
    match (size, crc) {
        (Some(size), Some(crc)) => Some((size as u32, crc as u32)),
        _ => None,
    }
}

/// The name and the value in a header line: what stands before and behind the first colon that a
/// space follows. Without one, all of the line is the name.
pub open spec fn header_pair(line: Seq<char>) -> (Seq<char>, Seq<char>) {
    match text::first_at(line, ": "@, 0) {
        Some(i) => (line.take(i), line.skip(i + 2)),
        None => (line, Seq::empty()),
    }
}

/// The length that header lines announce: the number under the first name that is
/// `CONTENT-LENGTH` in upper case.
pub open spec fn announced_length(upper_keys: Seq<Seq<char>>, values: Seq<Seq<char>>) -> Option<nat> {
    match place_of(upper_keys, "CONTENT-LENGTH"@, 0) {
        Some(i) => text::number(text::trimmed(values[i]), usize::MAX as nat),
        None => None,
    }
}

/// The header lines in the headers of a request.
pub open spec fn header_lines(headers: Seq<u8>) -> Seq<Seq<char>> {
    text::fields(vstd::utf8::decode_utf8(headers), "\r\n"@)
}

/// The names in header lines, in upper case.
pub open spec fn upper_keys_of(lines: Seq<Seq<char>>) -> Seq<Seq<char>> {
    lines.map_values(|line: Seq<char>| text::uppercased(header_pair(line).0))
}

/// The names in header lines of ASCII characters, in upper case.
pub open spec fn ascii_keys_of(lines: Seq<Seq<char>>) -> Seq<Seq<char>> {
    lines.map_values(
        |line: Seq<char>| header_pair(line).0.map_values(|c: char| text::ascii_upper(c)),
    )
}

/// The values in header lines.
pub open spec fn values_of(lines: Seq<Seq<char>>) -> Seq<Seq<char>> {
    lines.map_values(|line: Seq<char>| header_pair(line).1)
}

/// The length that the headers of a request announce.
pub open spec fn content_length_in(headers: Seq<u8>) -> Option<nat> {
    if vstd::utf8::valid_utf8(headers) {
        announced_length(
            upper_keys_of(header_lines(headers)),
            values_of(header_lines(headers)),
        )
    } else {
        None
    }
}

/// Finds the announced length among header lines, given their names in upper case and their
/// values.
pub fn find_length(upper_keys: &Vec<String>, values: &Vec<&str>) -> (r: Option<usize>)
    requires
        upper_keys@.len() == values@.len(),
    ensures
        match r {
            Some(n) => announced_length(
                upper_keys@.map_values(|k: String| k@),
                text::texts(values@),
            ) == Some(n as nat),
            None => announced_length(
                upper_keys@.map_values(|k: String| k@),
                text::texts(values@),
            ) is None,
        },
{
    let ghost keys = upper_keys@.map_values(|k: String| k@);
    let mut i: usize = 0;
    while i < upper_keys.len()
        invariant
            keys == upper_keys@.map_values(|k: String| k@),
            upper_keys@.len() == values@.len(),
            i <= upper_keys@.len(),
            place_of(keys, "CONTENT-LENGTH"@, 0) == place_of(keys, "CONTENT-LENGTH"@, i as int),
        decreases upper_keys@.len() - i,
    {
        assert(keys[i as int] == upper_keys@[i as int]@);
        if text::same_text(upper_keys[i].as_str(), "CONTENT-LENGTH") {
            assert(text::texts(values@)[i as int] == values@[i as int]@);
            return match text::parse_number(text::trim(values[i]), usize::MAX as u64) {
                Some(n) => Some(n as usize),
                None => None,
            };
        }
        i += 1;
    }
    None
}

/// The name and the value in a header line.
fn header_pair_of<'a>(line: &'a str) -> (r: (&'a str, &'a str))
    ensures
        (r.0@, r.1@) == header_pair(line@),
{
    proof {
        reveal_strlit(": ");
    }
    let v = text::chars_of(line);
    let pat = text::chars_of(": ");
    let n: usize = v.len();
    match text::find_chars(&v, &pat, 0) {
        Some(i) => {
            let name = line.substring_char(0, i);
            let value = line.substring_char(i + 2, n);
            assert(name@ =~= line@.take(i as int));
            assert(value@ =~= line@.skip(i + 2));
            (name, value)
        },
        None => {
            let none = line.substring_char(0, 0);
            assert(none@ =~= Seq::<char>::empty());
            (line, none)
        },
    }
}

/// Whether headers are UTF-8 and have only ASCII characters in their names.
pub open spec fn has_ascii_names(headers: Seq<u8>) -> bool {
    vstd::utf8::valid_utf8(headers) && forall|i: int|
        0 <= i < header_lines(headers).len() ==> vstd::utf8::is_ascii_chars(
            header_pair(#[trigger] header_lines(headers)[i]).0,
        )
}

/// The length that headers announce whose names have only ASCII characters.
pub open spec fn ascii_length_in(headers: Seq<u8>) -> Option<nat> {
    announced_length(ascii_keys_of(header_lines(headers)), values_of(header_lines(headers)))
}

/// The length that the headers of a request announce.
pub fn content_length(headers: &[u8]) -> (r: Option<usize>)
    ensures
        match r {
            Some(n) => content_length_in(headers@) == Some(n as nat),
            None => content_length_in(headers@) is None,
        },
        has_ascii_names(headers@) ==> content_length_in(headers@) == ascii_length_in(headers@),
{
    proof {
        reveal_strlit("\r\n");
    }
    let section = match text::text_of(headers) {
        Some(section) => section,
        None => {
            return None;
        },
    };
    let lines = text::split(section, "\r\n");
    let ghost all = header_lines(headers@);
    let mut upper_keys: Vec<String> = Vec::new();
    let mut values: Vec<&str> = Vec::new();
    let mut i: usize = 0;
    while i < lines.len()
        invariant
            text::texts(lines@) == all,
            i <= lines@.len(),
            upper_keys@.len() == i,
            values@.len() == i,
            forall|j: int|
                0 <= j < i ==> #[trigger] upper_keys@[j]@ == text::uppercased(
                    header_pair(all[j]).0,
                ),
            forall|j: int|
                0 <= j < i && vstd::utf8::is_ascii_chars(header_pair(all[j]).0)
                    ==> #[trigger] upper_keys@[j]@ == header_pair(all[j]).0.map_values(
                    |c: char| text::ascii_upper(c),
                ),
            forall|j: int| 0 <= j < i ==> #[trigger] values@[j]@ == header_pair(all[j]).1,
        decreases lines@.len() - i,
    {
        assert(all[i as int] == lines@[i as int]@);
        let (name, value) = header_pair_of(lines[i]);
        upper_keys.push(text::upper(name));
        values.push(value);
        i += 1;
    }
    proof {
        assert(upper_keys@.map_values(|k: String| k@) =~= upper_keys_of(all));
        assert(text::texts(values@) =~= values_of(all));
        if has_ascii_names(headers@) {
            assert forall|j: int| 0 <= j < all.len() implies upper_keys_of(all)[j]
                == #[trigger] ascii_keys_of(all)[j] by {
                assert(vstd::utf8::is_ascii_chars(header_pair(all[j]).0));
                assert(upper_keys@[j]@ == text::uppercased(header_pair(all[j]).0));
            }
            assert(upper_keys_of(all) =~= ascii_keys_of(all));
        }
    }
    find_length(&upper_keys, &values)
}

/// What a firmware update announces, from the size and the checksum in its query and the length in
/// its headers, if all of them are there.
pub open spec fn announced(params: Option<(nat, nat)>, length: Option<nat>) -> Option<UpdateRequest> {
    match (params, length) {
        (Some((size, crc)), Some(n)) => Some(
            UpdateRequest { size: size as u32, crc: crc as u32, content_length: n as usize },
        ),
        _ => None,
    }
}

/// What a firmware update announces, if its path and its headers give all of it.
pub open spec fn update_in(request: RequestModel) -> Option<UpdateRequest> {
    announced(query_params(request.path), content_length_in(request.headers))
}

/// What a firmware update announces, if its path and its headers give all of it.
pub fn parse_update_request(request: &HttpRequest<'_>) -> (r: Option<UpdateRequest>)
    ensures
        r == update_in(request@),
        match r {
            Some(u) => {
                &&& query_params(request.path@) == Some((u.size as nat, u.crc as nat))
                &&& content_length_in(request.headers@) == Some(u.content_length as nat)
            },
            None => {
                ||| query_params(request.path@) is None
                ||| content_length_in(request.headers@) is None
            },
        },
        has_ascii_names(request.headers@) ==> r == announced(
            query_params(request.path@),
            ascii_length_in(request.headers@),
        ),
{
    match (parse_query(request.path), content_length(request.headers)) {
        (Some((size, crc)), Some(content_length)) => Some(
            UpdateRequest { size, crc, content_length },
        ),
        _ => None,
    }
}

/// A path that asks for an update of `size` bytes with the checksum `crc`.
pub open spec fn update_path(page: Seq<char>, size: nat, crc: nat) -> Seq<char> {
    page + "?size="@ + text::decimal(size) + "&crc="@ + text::decimal(crc)
}

/// The size and the checksum that are written into a path are read back from it.
pub proof fn query_reads_back(page: Seq<char>, size: u32, crc: u32)
    requires
        !page.contains('?'),
    ensures
        query_params(update_path(page, size as nat, crc as nat)) == Some((size as nat, crc as nat)),
{
    reveal_strlit("?");
    reveal_strlit("&");
    reveal_strlit("=");
    reveal_strlit("?size=");
    reveal_strlit("&crc=");
    reveal_strlit("size");
    reveal_strlit("crc");
    let s = text::decimal(size as nat);
    let c = text::decimal(crc as nat);
    text::decimal_is_trimmed(size as nat);
    text::decimal_is_trimmed(crc as nat);
    text::decimal_reads_back(size as nat, u32::MAX as nat);
    text::decimal_reads_back(crc as nat, u32::MAX as nat);
    let first = "size"@ + seq!['='] + s;
    let second = "crc"@ + seq!['='] + c;
    assert(first =~= seq!['s', 'i', 'z', 'e', '='] + s);
    assert(second =~= seq!['c', 'r', 'c', '='] + c);
    let query = first + seq!['&'] + second;
    let parts = seq![first, second];
    assert("?"@ =~= seq!['?']);
    assert("&"@ =~= seq!['&']);
    assert("="@ =~= seq!['=']);
    two_fields(page, '?', query);
    assert(update_path(page, size as nat, crc as nat) =~= page + seq!['?'] + query);
    two_fields(first, '&', second);
    two_fields("size"@, '=', s);
    two_fields("crc"@, '=', c);
    let keys = query_keys(parts);
    assert(keys[0] == "size"@ && keys[1] == "crc"@);
    assert(place_of(keys, "size"@, 0) == Some(0int));
    assert(place_of(keys, "crc"@, 1) == Some(1int));
}

/// A separator between two texts that do not hold it parts the one from the other.
proof fn two_fields(a: Seq<char>, c: char, b: Seq<char>)
    requires
        !a.contains(c),
        !b.contains(c),
    ensures
        text::fields(a + seq![c] + b, seq![c]) == seq![a, b],
{
    let parts = seq![a, b];
    text::is_part_without(a, c);
    text::is_part_without(b, c);
    assert(parts.drop_first() =~= seq![b]);
    reveal_with_fuel(text::joined_with, 2);
    assert(text::joined_with(parts, seq![c]) =~= a + seq![c] + b);
    text::fields_of_joined(parts, seq![c]);
}

/// A length that is written into a header line is read back from the headers: it is announced by
/// the first line whose name is `Content-Length`, however its letters are cased.
pub proof fn length_reads_back(
    lines: Seq<Seq<char>>,
    at: int,
    name: Seq<char>,
    n: usize,
)
    requires
        0 <= at < lines.len(),
        forall|i: int| 0 <= i < lines.len() ==> text::is_part(#[trigger] lines[i], "\r\n"@),
        lines[at] == name + ": "@ + text::decimal(n as nat),
        text::is_part(name, ": "@),
        name.map_values(|c: char| text::ascii_upper(c)) == "CONTENT-LENGTH"@,
        forall|i: int| 0 <= i < at ==> #[trigger] ascii_keys_of(lines)[i] != "CONTENT-LENGTH"@,
    ensures
        ({
            let headers = vstd::utf8::encode_utf8(text::joined_with(lines, "\r\n"@));
            &&& vstd::utf8::valid_utf8(headers)
            &&& header_lines(headers) == lines
            &&& ascii_length_in(headers) == Some(n as nat)
        }),
{
    reveal_strlit("\r\n");
    reveal_strlit(": ");
    let all = text::joined_with(lines, "\r\n"@);
    vstd::utf8::encode_utf8_valid_utf8(all);
    vstd::utf8::encode_utf8_decode_utf8(all);
    text::fields_of_joined(lines, "\r\n"@);
    let d = text::decimal(n as nat);
    text::decimal_is_trimmed(n as nat);
    text::decimal_reads_back(n as nat, usize::MAX as nat);
    let line = lines[at];
    let k = name.len() as int;
    text::first_at_is_first(name + ": "@, ": "@, 0);
    assert(line.subrange(k, k + 2) =~= ": "@);
    assert forall|j: int| 0 <= j < k implies !text::occurs_at(line, ": "@, j) by {
        assert(line.subrange(j, j + 2) =~= (name + ": "@).subrange(j, j + 2));
        assert(!text::occurs_at(name + ": "@, ": "@, j));
    }
    text::first_at_is(line, ": "@, 0, k);
    assert(line.take(k) =~= name);
    assert(line.skip(k + 2) =~= d);
    let keys = ascii_keys_of(lines);
    assert(keys[at] == "CONTENT-LENGTH"@);
    place_of_is(keys, "CONTENT-LENGTH"@, 0, at);
    assert(values_of(lines)[at] == d);
}

/// A name whose first place is known is found there.
proof fn place_of_is(keys: Seq<Seq<char>>, key: Seq<char>, i: int, k: int)
    requires
        0 <= i <= k < keys.len(),
        keys[k] == key,
        forall|j: int| i <= j < k ==> #[trigger] keys[j] != key,
    ensures
        place_of(keys, key, i) == Some(k),
    decreases k - i,
{
    if i < k {
        place_of_is(keys, key, i + 1, k);
    }
}

/// A field of a query gives what stands before its first equals sign as the name, and what stands
/// between that and the next one, or the end, as the value. Without an equals sign it is all name.
pub proof fn query_fields_have_name_and_value(name: Seq<char>, value: Seq<char>, more: Seq<char>)
    requires
        !name.contains('='),
        !value.contains('='),
        more.len() > 0 ==> more[0] == '=',
    ensures
        query_pair(name + seq!['='] + value + more) == (name, value),
        query_pair(name) == (name, Seq::<char>::empty()),
{
    reveal_strlit("=");
    assert("="@ =~= seq!['=']);
    let q = name + seq!['='] + value + more;
    let rest = value + more;
    assert(q =~= name + seq!['='] + rest);
    first_of(name, '=', rest);
    assert(text::fields(q, seq!['=']) == seq![name] + text::fields(rest, seq!['=']));
    fields_begin_with(value, '=', more);
    let f = text::fields(rest, seq!['=']);
    assert((seq![name] + f)[1] == f[0]);
    only_one(name, '=');
}

/// The first field of a text is what stands before the first separator.
proof fn first_of(a: Seq<char>, c: char, rest: Seq<char>)
    requires
        !a.contains(c),
    ensures
        text::fields(a + seq![c] + rest, seq![c]) == seq![a] + text::fields(rest, seq![c]),
{
    assert forall|j: int| 0 <= j < a.len() implies !seq![c].is_prefix_of(
        #[trigger] (a + seq![c] + rest).skip(j),
    ) by {
        text::no_separator_without(a, c, rest, j);
    }
    text::first_field_is_before_the_separator(a, seq![c], rest);
}

/// A text without the separator is its only field.
proof fn only_one(a: Seq<char>, c: char)
    requires
        !a.contains(c),
    ensures
        text::fields(a, seq![c]) == seq![a],
{
    assert forall|j: int| 0 <= j <= a.len() implies !seq![c].is_prefix_of(#[trigger] a.skip(j)) by {
        if j < a.len() {
            text::no_separator_without(a, c, Seq::empty(), j);
        }
    }
    text::only_field_without_a_separator(a, seq![c]);
}

/// The first field of a text of which a separator, or nothing, follows `a`.
proof fn fields_begin_with(a: Seq<char>, c: char, more: Seq<char>)
    requires
        !a.contains(c),
        more.len() > 0 ==> more[0] == c,
    ensures
        text::fields(a + more, seq![c]).len() > 0,
        text::fields(a + more, seq![c])[0] == a,
{
    if more.len() > 0 {
        let rest = more.skip(1);
        assert(a + more =~= a + seq![c] + rest);
        first_of(a, c, rest);
    } else {
        assert(a + more =~= a);
        only_one(a, c);
    }
}

/// The query of a path is what stands between its first question mark and the next one, or the
/// end. Its fields stand between ampersands. A path without a question mark has no query.
pub proof fn queries_stand_behind_the_question_mark(
    page: Seq<char>,
    query: Seq<char>,
    more: Seq<char>,
)
    requires
        !page.contains('?'),
        !query.contains('?'),
        more.len() > 0 ==> more[0] == '?',
    ensures
        query_params(page + seq!['?'] + query + more) == params_of(text::fields(query, seq!['&'])),
        query_params(page) is None,
{
    reveal_strlit("?");
    reveal_strlit("&");
    assert("?"@ =~= seq!['?']);
    assert("&"@ =~= seq!['&']);
    let path = page + seq!['?'] + query + more;
    let rest = query + more;
    assert(path =~= page + seq!['?'] + rest);
    first_of(page, '?', rest);
    fields_begin_with(query, '?', more);
    let f = text::fields(rest, seq!['?']);
    assert((seq![page] + f)[1] == f[0]);
    only_one(page, '?');
}

/// Size and checksum are the numbers, of at most 32 bits, in the first field named `size` and the
/// first field behind that named `crc`, without the white space around them. There are none when
/// one of the two fields is missing or is no number.
pub proof fn size_and_checksum_are_numbers(parts: Seq<Seq<char>>, i: int, j: int)
    requires
        0 <= i < parts.len(),
        query_pair(parts[i]).0 == "size"@,
        forall|k: int| 0 <= k < i ==> query_pair(#[trigger] parts[k]).0 != "size"@,
    ensures
        ({
            let size = text::number(text::trimmed(query_pair(parts[i]).1), 4294967295);
            let crc = text::number(text::trimmed(query_pair(parts[j]).1), 4294967295);
            &&& i < j < parts.len() && query_pair(parts[j]).0 == "crc"@ && (forall|k: int|
                i < k < j ==> query_pair(#[trigger] parts[k]).0 != "crc"@) ==> {
                &&& size is Some && crc is Some ==> params_of(parts) == Some((size->0, crc->0))
                &&& size is None || crc is None ==> params_of(parts) is None
            }
            &&& (forall|k: int|
                i < k < parts.len() ==> query_pair(#[trigger] parts[k]).0 != "crc"@)
                ==> params_of(parts) is None
        }),
{
    let keys = query_keys(parts);
    assert forall|k: int| 0 <= k < parts.len() implies #[trigger] keys[k] == query_pair(
        parts[k],
    ).0 by {}
    assert forall|k: int| 0 <= k < i implies #[trigger] keys[k] != "size"@ by {
        assert(keys[k] == query_pair(parts[k]).0);
    }
    place_of_is(keys, "size"@, 0, i);
    place_of_is_first(keys, "crc"@, i + 1);
    if i < j < parts.len() && query_pair(parts[j]).0 == "crc"@ && (forall|k: int|
        i < k < j ==> query_pair(#[trigger] parts[k]).0 != "crc"@) {
        assert forall|k: int| i + 1 <= k < j implies #[trigger] keys[k] != "crc"@ by {
            assert(keys[k] == query_pair(parts[k]).0);
        }
        place_of_is(keys, "crc"@, i + 1, j);
    }
    if forall|k: int| i < k < parts.len() ==> query_pair(#[trigger] parts[k]).0 != "crc"@ {
        match place_of(keys, "crc"@, i + 1) {
            Some(k) => {
                assert(keys[k] == query_pair(parts[k]).0);
            },
            None => {},
        }
    }
}

/// Without a field named `size` there is neither size nor checksum.
pub proof fn no_size_without_its_field(parts: Seq<Seq<char>>)
    requires
        forall|k: int| 0 <= k < parts.len() ==> query_pair(#[trigger] parts[k]).0 != "size"@,
    ensures
        params_of(parts) is None,
{
    let keys = query_keys(parts);
    place_of_is_first(keys, "size"@, 0);
    match place_of(keys, "size"@, 0) {
        Some(k) => {
            assert(keys[k] == query_pair(parts[k]).0);
        },
        None => {},
    }
}

/// A header line gives what stands before its first colon with a space behind as the name, and all
/// that stands behind those two as the value. Without them it is all name.
pub proof fn header_lines_have_name_and_value(line: Seq<char>, name: Seq<char>, value: Seq<char>)
    requires
        line == name + seq![':', ' '] + value,
        forall|j: int| 0 <= j < name.len() ==> !seq![':', ' '].is_prefix_of(#[trigger] line.skip(j)),
    ensures
        header_pair(line) == (name, value),
        (forall|j: int|
            0 <= j <= value.len() ==> !seq![':', ' '].is_prefix_of(#[trigger] value.skip(j)))
            ==> header_pair(value) == (value, Seq::<char>::empty()),
{
    reveal_strlit(": ");
    let sep = seq![':', ' '];
    assert(": "@ =~= sep);
    let k = name.len() as int;
    assert(line.skip(k) =~= sep + value);
    assert(sep =~= (sep + value).subrange(0, 2));
    text::first_at_is_leftmost(line, sep, 0, k);
    assert(line.take(k) =~= name);
    assert(line.skip(k + 2) =~= value);
    if forall|j: int| 0 <= j <= value.len() ==> !sep.is_prefix_of(#[trigger] value.skip(j)) {
        text::first_at_is_nowhere(value, sep, 0);
    }
}

/// Header lines stand between ends of lines, and each gives its name, in upper case, and its value.
pub proof fn header_lines_are_looked_at_one_by_one(headers: Seq<u8>, lines: Seq<Seq<char>>, i: int)
    requires
        0 <= i < lines.len(),
    ensures
        header_lines(headers) == text::fields(vstd::utf8::decode_utf8(headers), seq!['\r', '\n']),
        upper_keys_of(lines).len() == lines.len(),
        ascii_keys_of(lines).len() == lines.len(),
        values_of(lines).len() == lines.len(),
        upper_keys_of(lines)[i] == text::uppercased(header_pair(lines[i]).0),
        ascii_keys_of(lines)[i] == header_pair(lines[i]).0.map_values(
            |c: char| text::ascii_upper(c),
        ),
        values_of(lines)[i] == header_pair(lines[i]).1,
{
    reveal_strlit("\r\n");
    assert("\r\n"@ =~= seq!['\r', '\n']);
}

/// The announced length is the number in the first line whose name is `CONTENT-LENGTH` in upper
/// case, without the white space around it. There is none without such a line, or if that line
/// gives no number.
pub proof fn lengths_are_announced_by_the_first_such_line(
    upper_keys: Seq<Seq<char>>,
    values: Seq<Seq<char>>,
    k: int,
)
    ensures
        0 <= k < upper_keys.len() && upper_keys[k] == "CONTENT-LENGTH"@ && (forall|j: int|
            0 <= j < k ==> #[trigger] upper_keys[j] != "CONTENT-LENGTH"@) ==> announced_length(
            upper_keys,
            values,
        ) == text::number(text::trimmed(values[k]), usize::MAX as nat),
        (forall|j: int|
            0 <= j < upper_keys.len() ==> #[trigger] upper_keys[j] != "CONTENT-LENGTH"@)
            ==> announced_length(upper_keys, values) is None,
{
    place_of_is_first(upper_keys, "CONTENT-LENGTH"@, 0);
    if 0 <= k < upper_keys.len() && upper_keys[k] == "CONTENT-LENGTH"@ && (forall|j: int|
        0 <= j < k ==> #[trigger] upper_keys[j] != "CONTENT-LENGTH"@) {
        place_of_is(upper_keys, "CONTENT-LENGTH"@, 0, k);
    }
}

/// The length in headers is the one that their lines announce, whatever they are, if they are
/// UTF-8; in others there is none.
pub proof fn headers_announce_what_their_lines_announce(headers: Seq<u8>)
    ensures
        vstd::utf8::valid_utf8(headers) ==> content_length_in(headers) == announced_length(
            upper_keys_of(header_lines(headers)),
            values_of(header_lines(headers)),
        ),
        !vstd::utf8::valid_utf8(headers) ==> content_length_in(headers) is None,
        ascii_length_in(headers) == announced_length(
            ascii_keys_of(header_lines(headers)),
            values_of(header_lines(headers)),
        ),
        vstd::utf8::valid_utf8(headers) && (forall|i: int|
            0 <= i < header_lines(headers).len() ==> vstd::utf8::is_ascii_chars(
                header_pair(#[trigger] header_lines(headers)[i]).0,
            )) ==> has_ascii_names(headers),
{
}

/// An update announces its size, its checksum and its length, whatever they are, and is none when
/// one of them is missing.
pub proof fn updates_announce_all_three(
    request: RequestModel,
    size: u32,
    crc: u32,
    n: usize,
    params: Option<(nat, nat)>,
    length: Option<nat>,
)
    ensures
        announced(Some((size as nat, crc as nat)), Some(n as nat)) == Some(
            UpdateRequest { size, crc, content_length: n },
        ),
        params is None ==> announced(params, length) is None,
        length is None ==> announced(params, length) is None,
        update_in(request) == announced(
            query_params(request.path),
            content_length_in(request.headers),
        ),
{
}

} // verus!
