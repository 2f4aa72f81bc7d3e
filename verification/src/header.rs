//! The head of a response, gathered in a buffer of fixed size.
use vstd::prelude::*;

use crate::text;

verus! {

/// How many bytes the head of a response may take.
pub const HTTP_HEADER_BUFFER_SIZE: usize = 192;

/// A text buffer that holds at most `HTTP_HEADER_BUFFER_SIZE` bytes.
#[verifier::external_body]
pub struct HeaderBuffer {
    inner: heapless::String<HTTP_HEADER_BUFFER_SIZE>,
}

/// The bytes that a header buffer holds.
pub uninterp spec fn held(b: HeaderBuffer) -> Seq<u8>;

impl HeaderBuffer {
    /// An empty buffer.
    ///
    /// Calls `heapless::String::new`, which makes a string without content.
    #[verifier::external_body]
    fn new() -> (r: HeaderBuffer)
        ensures
            held(r) == Seq::<u8>::empty(),
    {
        HeaderBuffer { inner: heapless::String::new() }
    }

    /// Appends a piece, if it fits.
    ///
    /// Calls `heapless::String::push_str`: a piece that fits beside what is held is appended
    /// whole, one that does not is refused and nothing changes.
    #[verifier::external_body]
    fn push_str(&mut self, piece: &str) -> (r: bool)
        ensures
            r == (held(*old(self)).len() + vstd::utf8::encode_utf8(piece@).len()
                <= HTTP_HEADER_BUFFER_SIZE),
            r ==> held(*final(self)) == held(*old(self)) + vstd::utf8::encode_utf8(piece@),
            !r ==> held(*final(self)) == held(*old(self)),
    {
        self.inner.push_str(piece).is_ok()
    }

    /// A copy of the bytes held.
    ///
    /// Calls `heapless::String::as_str` and hands out the bytes of that text.
    #[verifier::external_body]
    fn to_bytes(&self) -> (r: Vec<u8>)
        ensures
            r@ == held(*self),
    {
        self.inner.as_str().as_bytes().to_vec()
    }
}

/// What a buffer of `cap` bytes that holds `acc` holds after the pieces were offered one by one,
/// up to the first that does not fit.
pub open spec fn filled(acc: Seq<u8>, pieces: Seq<Seq<char>>, cap: nat) -> Seq<u8>
    decreases pieces.len(),
{
    if pieces.len() == 0 {
        acc
    } else {
        let next = vstd::utf8::encode_utf8(pieces[0]);
        if acc.len() + next.len() <= cap {
            filled(acc + next, pieces.drop_first(), cap)
        } else {
            acc
        }
    }
}

/// The pieces of which the head of a response is made.
pub open spec fn head_pieces(status: Seq<char>, content_type: Seq<char>, body_len: nat) -> Seq<
    Seq<char>,
> {
    seq![
        "HTTP/1.1 "@,
        status,
        "\r\nContent-Type: "@,
        content_type,
        "; charset=utf-8\r\nContent-Length: "@,
        text::decimal(body_len),
        "\r\nConnection: close\r\n\r\n"@,
    ]
}

/// The head of a response, as its bytes.
pub open spec fn head(status: Seq<char>, content_type: Seq<char>, body_len: nat) -> Seq<u8> {
    filled(
        Seq::empty(),
        head_pieces(status, content_type, body_len),
        HTTP_HEADER_BUFFER_SIZE as nat,
    )
}

/// The head of a response that announces `body_len` bytes. A piece that the buffer has no room
/// for is left out, and all that follow it.
pub fn response_head(status: &str, content_type: &str, body_len: usize) -> (r: Vec<u8>)
    ensures
        r@ == head(status@, content_type@, body_len as nat),
{
    let length = text::decimal_text(body_len as u64);
    let mut pieces: Vec<&str> = Vec::new();
    pieces.push("HTTP/1.1 ");
    pieces.push(status);
    pieces.push("\r\nContent-Type: ");
    pieces.push(content_type);
    pieces.push("; charset=utf-8\r\nContent-Length: ");
    pieces.push(length.as_str());
    pieces.push("\r\nConnection: close\r\n\r\n");
    let ghost all = head_pieces(status@, content_type@, body_len as nat);
    assert(text::texts(pieces@) =~= all);
    let mut buffer = HeaderBuffer::new();
    let mut i: usize = 0;
    assert(all.skip(0) =~= all);
    while i < pieces.len()
        invariant
            all == head_pieces(status@, content_type@, body_len as nat),
            text::texts(pieces@) == all,
            i <= pieces@.len(),
            filled(Seq::empty(), all, HTTP_HEADER_BUFFER_SIZE as nat) == filled(
                held(buffer),
                all.skip(i as int),
                HTTP_HEADER_BUFFER_SIZE as nat,
            ),
        decreases pieces@.len() - i,
    {
        assert(all[i as int] == pieces@[i as int]@);
        assert(all.skip(i as int).drop_first() =~= all.skip(i + 1));
        if !buffer.push_str(pieces[i]) {
            return buffer.to_bytes();
        }
        i += 1;
    }
    buffer.to_bytes()
}

/// The bytes of the pieces, one behind the other.
pub open spec fn joined(pieces: Seq<Seq<char>>) -> Seq<u8>
    decreases pieces.len(),
{
    if pieces.len() == 0 {
        Seq::empty()
    } else {
        vstd::utf8::encode_utf8(pieces[0]) + joined(pieces.drop_first())
    }
}

/// A head never takes more than the buffer holds.
pub proof fn head_fits(status: Seq<char>, content_type: Seq<char>, body_len: nat)
    ensures
        head(status, content_type, body_len).len() <= HTTP_HEADER_BUFFER_SIZE,
{
    filled_fits(
        Seq::empty(),
        head_pieces(status, content_type, body_len),
        HTTP_HEADER_BUFFER_SIZE as nat,
    );
}

/// Filling a buffer never exceeds its capacity.
proof fn filled_fits(acc: Seq<u8>, pieces: Seq<Seq<char>>, cap: nat)
    requires
        acc.len() <= cap,
    ensures
        filled(acc, pieces, cap).len() <= cap,
    decreases pieces.len(),
{
    if pieces.len() > 0 {
        let next = vstd::utf8::encode_utf8(pieces[0]);
        if acc.len() + next.len() <= cap {
            filled_fits(acc + next, pieces.drop_first(), cap);
        }
    }
}

/// Pieces that fit all together are all taken.
proof fn filled_is_joined(acc: Seq<u8>, pieces: Seq<Seq<char>>, cap: nat)
    requires
        acc.len() + joined(pieces).len() <= cap,
    ensures
        filled(acc, pieces, cap) == acc + joined(pieces),
    decreases pieces.len(),
{
    if pieces.len() > 0 {
        let next = vstd::utf8::encode_utf8(pieces[0]);
        filled_is_joined(acc + next, pieces.drop_first(), cap);
        assert(acc + joined(pieces) =~= (acc + next) + joined(pieces.drop_first()));
    } else {
        assert(acc + joined(pieces) =~= acc);
    }
}

/// A head is always the beginning of what it would be in a larger buffer.
pub proof fn head_is_beginning(status: Seq<char>, content_type: Seq<char>, body_len: nat)
    ensures
        head(status, content_type, body_len).is_prefix_of(
            joined(head_pieces(status, content_type, body_len)),
        ),
{
    let pieces = head_pieces(status, content_type, body_len);
    filled_is_beginning(Seq::empty(), pieces, HTTP_HEADER_BUFFER_SIZE as nat);
    assert(Seq::<u8>::empty() + joined(pieces) =~= joined(pieces));
}

/// What fits a buffer is the beginning of all that was offered.
proof fn filled_is_beginning(acc: Seq<u8>, pieces: Seq<Seq<char>>, cap: nat)
    ensures
        filled(acc, pieces, cap).is_prefix_of(acc + joined(pieces)),
    decreases pieces.len(),
{
    if pieces.len() > 0 {
        let next = vstd::utf8::encode_utf8(pieces[0]);
        filled_is_beginning(acc + next, pieces.drop_first(), cap);
        assert(acc + joined(pieces) =~= (acc + next) + joined(pieces.drop_first()));
    }
    assert(acc.is_prefix_of(acc + joined(pieces))) by {
        assert(acc =~= (acc + joined(pieces)).take(acc.len() as int));
    }
}

/// A head whose pieces fit the buffer is complete: nothing is left out of it.
pub proof fn head_is_complete(status: Seq<char>, content_type: Seq<char>, body_len: nat)
    requires
        joined(head_pieces(status, content_type, body_len)).len() <= HTTP_HEADER_BUFFER_SIZE,
    ensures
        head(status, content_type, body_len) == joined(
            head_pieces(status, content_type, body_len),
        ),
{
    let pieces = head_pieces(status, content_type, body_len);
    filled_is_joined(Seq::empty(), pieces, HTTP_HEADER_BUFFER_SIZE as nat);
    assert(Seq::<u8>::empty() + joined(pieces) =~= joined(pieces));
}

/// With an ASCII status line and content type of at most 91 characters together, the head is
/// complete whatever the length of the body.
pub proof fn short_head_is_complete(status: Seq<char>, content_type: Seq<char>, body_len: usize)
    requires
        vstd::utf8::is_ascii_chars(status),
        vstd::utf8::is_ascii_chars(content_type),
        status.len() + content_type.len() <= 91,
    ensures
        head(status, content_type, body_len as nat) == joined(
            head_pieces(status, content_type, body_len as nat),
        ),
{
    reveal_strlit("HTTP/1.1 ");
    reveal_strlit("\r\nContent-Type: ");
    reveal_strlit("; charset=utf-8\r\nContent-Length: ");
    reveal_strlit("\r\nConnection: close\r\n\r\n");
    let pieces = head_pieces(status, content_type, body_len as nat);
    text::decimal_is_short(body_len as u64);
    assert forall|i: int| 0 <= i < pieces.len() implies vstd::utf8::encode_utf8(
        #[trigger] pieces[i],
    ).len() == pieces[i].len() by {
        vstd::utf8::is_ascii_chars_encode_utf8(pieces[i]);
    }
    reveal_with_fuel(joined, 8);
    let p1 = pieces.drop_first();
    let p2 = p1.drop_first();
    let p3 = p2.drop_first();
    let p4 = p3.drop_first();
    let p5 = p4.drop_first();
    let p6 = p5.drop_first();
    assert(p1[0] == pieces[1] && p2[0] == pieces[2] && p3[0] == pieces[3] && p4[0] == pieces[4]
        && p5[0] == pieces[5] && p6[0] == pieces[6]);
    assert(p6.drop_first().len() == 0);
    head_is_complete(status, content_type, body_len as nat);
}

/// The head of a response names the status, the content type and the length of the body, one after
/// the other, and announces the end of the connection. It goes as far as whole pieces of that fit
/// the 192 bytes there are, whatever the status, the content type and the length.
pub proof fn head_names_status_type_and_length(
    status: Seq<char>,
    content_type: Seq<char>,
    body_len: nat,
)
    ensures
        ({
            let h = head(status, content_type, body_len);
            let t1 = "HTTP/1.1 "@;
            let t2 = t1 + status;
            let t3 = t2 + "\r\nContent-Type: "@;
            let t4 = t3 + content_type;
            let t5 = t4 + "; charset=utf-8\r\nContent-Length: "@;
            let t6 = t5 + text::decimal(body_len);
            let t7 = t6 + "\r\nConnection: close\r\n\r\n"@;
            if vstd::utf8::encode_utf8(t7).len() <= 192 {
                h == vstd::utf8::encode_utf8(t7)
            } else if vstd::utf8::encode_utf8(t6).len() <= 192 {
                h == vstd::utf8::encode_utf8(t6)
            } else if vstd::utf8::encode_utf8(t5).len() <= 192 {
                h == vstd::utf8::encode_utf8(t5)
            } else if vstd::utf8::encode_utf8(t4).len() <= 192 {
                h == vstd::utf8::encode_utf8(t4)
            } else if vstd::utf8::encode_utf8(t3).len() <= 192 {
                h == vstd::utf8::encode_utf8(t3)
            } else if vstd::utf8::encode_utf8(t2).len() <= 192 {
                h == vstd::utf8::encode_utf8(t2)
            } else {
                h == vstd::utf8::encode_utf8(t1)
            }
        }),
{
    reveal_strlit("HTTP/1.1 ");
    let p0 = head_pieces(status, content_type, body_len);
    let p1 = p0.drop_first();
    let p2 = p1.drop_first();
    let p3 = p2.drop_first();
    let p4 = p3.drop_first();
    let p5 = p4.drop_first();
    let p6 = p5.drop_first();
    let p7 = p6.drop_first();
    let t1 = "HTTP/1.1 "@;
    let t2 = t1 + status;
    let t3 = t2 + "\r\nContent-Type: "@;
    let t4 = t3 + content_type;
    let t5 = t4 + "; charset=utf-8\r\nContent-Length: "@;
    let t6 = t5 + text::decimal(body_len);
    let t7 = t6 + "\r\nConnection: close\r\n\r\n"@;
    assert(p0[0] == t1 && p1[0] == status && p2[0] == "\r\nContent-Type: "@ && p3[0]
        == content_type && p4[0] == "; charset=utf-8\r\nContent-Length: "@ && p5[0]
        == text::decimal(body_len) && p6[0] == "\r\nConnection: close\r\n\r\n"@);
    text::encode_concat(t1, status);
    text::encode_concat(t2, "\r\nContent-Type: "@);
    text::encode_concat(t3, content_type);
    text::encode_concat(t4, "; charset=utf-8\r\nContent-Length: "@);
    text::encode_concat(t5, text::decimal(body_len));
    text::encode_concat(t6, "\r\nConnection: close\r\n\r\n"@);
    assert(vstd::utf8::is_ascii_chars(t1));
    vstd::utf8::is_ascii_chars_encode_utf8(t1);
    let e1 = vstd::utf8::encode_utf8(t1);
    let e2 = vstd::utf8::encode_utf8(t2);
    let e3 = vstd::utf8::encode_utf8(t3);
    let e4 = vstd::utf8::encode_utf8(t4);
    let e5 = vstd::utf8::encode_utf8(t5);
    let e6 = vstd::utf8::encode_utf8(t6);
    let e7 = vstd::utf8::encode_utf8(t7);
    assert(Seq::<u8>::empty() + e1 =~= e1);
    assert(p7.len() == 0);
    assert(filled(e7, p7, 192) == e7);
    assert(filled(e6, p6, 192) == if e7.len() <= 192 {
        e7
    } else {
        e6
    });
    assert(filled(e5, p5, 192) == if e6.len() <= 192 {
        filled(e6, p6, 192)
    } else {
        e5
    });
    assert(filled(e4, p4, 192) == if e5.len() <= 192 {
        filled(e5, p5, 192)
    } else {
        e4
    });
    assert(filled(e3, p3, 192) == if e4.len() <= 192 {
        filled(e4, p4, 192)
    } else {
        e3
    });
    assert(filled(e2, p2, 192) == if e3.len() <= 192 {
        filled(e3, p3, 192)
    } else {
        e2
    });
    assert(filled(e1, p1, 192) == if e2.len() <= 192 {
        filled(e2, p2, 192)
    } else {
        e1
    });
    assert(filled(Seq::empty(), p0, 192) == filled(e1, p1, 192));
}

/// With an ASCII status line and content type of at most 91 characters together, the head is the
/// whole text, and the length it announces is the length of the body, whatever that is.
pub proof fn short_head_announces_the_body(
    status: Seq<char>,
    content_type: Seq<char>,
    body_len: usize,
)
    requires
        vstd::utf8::is_ascii_chars(status),
        vstd::utf8::is_ascii_chars(content_type),
        status.len() + content_type.len() <= 91,
    ensures
        head(status, content_type, body_len as nat) == vstd::utf8::encode_utf8(
            "HTTP/1.1 "@ + status + "\r\nContent-Type: "@ + content_type
                + "; charset=utf-8\r\nContent-Length: "@ + text::decimal(body_len as nat)
                + "\r\nConnection: close\r\n\r\n"@,
        ),
        text::number(text::decimal(body_len as nat), usize::MAX as nat) == Some(body_len as nat),
{
    reveal_strlit("HTTP/1.1 ");
    reveal_strlit("\r\nContent-Type: ");
    reveal_strlit("; charset=utf-8\r\nContent-Length: ");
    reveal_strlit("\r\nConnection: close\r\n\r\n");
    text::decimal_is_short(body_len as u64);
    text::decimal_reads_back(body_len as nat, usize::MAX as nat);
    let t = "HTTP/1.1 "@ + status + "\r\nContent-Type: "@ + content_type
        + "; charset=utf-8\r\nContent-Length: "@ + text::decimal(body_len as nat)
        + "\r\nConnection: close\r\n\r\n"@;
    assert(vstd::utf8::is_ascii_chars(t));
    vstd::utf8::is_ascii_chars_encode_utf8(t);
    head_names_status_type_and_length(status, content_type, body_len as nat);
}

} // verus!
