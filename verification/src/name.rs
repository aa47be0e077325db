//! Codec for domain names on the wire.
//!
//! A name is stored as a sequence of labels, each prefixed by a one-byte
//! length, terminated by a zero-length label; in memory it is a dotted
//! string. Reading stops cleanly when the stream ends at a label boundary,
//! fails with `EndOfStream` inside a label, and fails with `NameTooLong`
//! once the accumulated dotted string would exceed 255 characters. The
//! compression-pointer scheme (top two bits of a length byte signalling a
//! back-reference) is not handled: such a byte is taken as a literal length,
//! a known coverage gap of this codec.
//!
//! `spec_read_name` and `spec_name_bytes` are the mathematical model of the
//! two directions; `lemma_name_round_trip` proves that decoding an encoded
//! well-formed name gives the name back.

use vstd::prelude::*;

use crate::stream::{DnsError, DnsReader, DnsWriter};

verus! {

/// The character a raw label byte turns into.
pub open spec fn byte_to_char(b: u8) -> char {
    b as char
}

/// The byte a character is written as: its low eight bits.
pub open spec fn char_to_byte(c: char) -> u8 {
    ((c as u32) % 256) as u8
}

/// What reading a wire-format name from `bytes` at `pos` yields, with `acc`
/// the dotted string accumulated so far: the finished string and the
/// position after the terminator, or the error. The stream ending at a
/// label boundary ends the name; ending inside a label is `EndOfStream`;
/// a dotted string longer than 255 characters is `NameTooLong`.
pub open spec fn spec_read_name(bytes: Seq<u8>, pos: int, acc: Seq<char>) -> Result<
    (Seq<char>, int),
    DnsError,
>
    decreases bytes.len() - pos,
{
    if pos < 0 || pos >= bytes.len() {
        Ok((acc, pos))
    } else {
        let len = bytes[pos] as int;
        if len == 0 {
            Ok((acc, pos + 1))
        } else if pos + 1 + len > bytes.len() {
            Err(DnsError::EndOfStream)
        } else {
            let label = Seq::new(len as nat, |i: int| byte_to_char(bytes[pos + 1 + i]));
            let acc2 = if acc.len() > 0 {
                acc.push('.') + label
            } else {
                label
            };
            if acc2.len() > 255 {
                Err(DnsError::NameTooLong)
            } else {
                spec_read_name(bytes, pos + 1 + len, acc2)
            }
        }
    }
}

/// Relies on String::push: appends exactly the given character.
#[verifier::external_body]
fn push_char(s: &mut String, c: char)
    ensures
        final(s)@ == old(s)@.push(c),
{
    s.push(c);
}

/// Reads a wire-format name, appending its dotted form to `name`; a `.` is
/// put before every label but the first. On success the reader stands after
/// the terminating zero byte (or at the end of the stream, which also ends
/// a name); on failure the contents of `name` and the cursor are
/// unspecified.
#[verifier::loop_isolation(false)]
pub fn read_dns_encoded_name(reader: &mut DnsReader, name: &mut String) -> (r: Result<
    (),
    DnsError,
>)
    requires
        old(reader).wf(),
    ensures
        final(reader).wf(),
        final(reader).bytes() == old(reader).bytes(),
        match r {
            Ok(_) => spec_read_name(old(reader).bytes(), old(reader).position(), old(name)@)
                == Ok::<_, DnsError>((final(name)@, final(reader).position())),
            Err(e) => spec_read_name(old(reader).bytes(), old(reader).position(), old(name)@)
                == Err::<(Seq<char>, int), DnsError>(e),
        },
{
    let ghost bytes0 = reader.bytes();
    let ghost pos0 = reader.position();
    let ghost acc0 = name@;
    let mut total: usize = name.as_str().unicode_len();
    loop
        invariant
            reader.wf(),
            reader.bytes() == bytes0,
            total == name@.len(),
            spec_read_name(bytes0, pos0, acc0) == spec_read_name(
                bytes0,
                reader.position(),
                name@,
            ),
        decreases bytes0.len() - reader.position(),
    {
        let ghost p = reader.position();
        let ghost acc = name@;
        let len = match reader.read_u8() {
            Ok(l) => l,
            Err(_) => {
                return Ok(());
            },
        };
        if len == 0 {
            return Ok(());
        }
        if reader.left() < len as usize {
            assert(spec_read_name(bytes0, p, acc) == Err::<(Seq<char>, int), DnsError>(
                DnsError::EndOfStream,
            ));
            return Err(DnsError::EndOfStream);
        }
        let sep: usize = if total > 0 {
            1
        } else {
            0
        };
        if total > 255 || total + sep + (len as usize) > 255 {
            assert(spec_read_name(bytes0, p, acc) == Err::<(Seq<char>, int), DnsError>(
                DnsError::NameTooLong,
            ));
            return Err(DnsError::NameTooLong);
        }
        if total > 0 {
            push_char(name, '.');
        }
        let ghost base = name@;
        let ghost p1 = reader.position();
        let mut i: usize = 0;
        while i < len as usize
            invariant
                reader.wf(),
                reader.bytes() == bytes0,
                i <= len as usize,
                p1 + len as int <= bytes0.len(),
                reader.position() == p1 + i,
                name@ == base + Seq::new(i as nat, |j: int| byte_to_char(bytes0[p1 + j])),
            decreases len as int - i,
        {
            let b = match reader.read_u8() {
                Ok(b) => b,
                Err(_) => {
                    proof {
                        assert(false);
                    }
                    return Err(DnsError::EndOfStream);
                },
            };
            push_char(name, b as char);
            i = i + 1;
            assert(name@ =~= base + Seq::new(i as nat, |j: int| byte_to_char(bytes0[p1 + j])));
        }
        total = total + sep + (len as usize);
        proof {
            let label = Seq::new(len as nat, |k: int| byte_to_char(bytes0[p + 1 + k]));
            assert(Seq::new(len as nat, |j: int| byte_to_char(bytes0[p1 + j])) =~= label);
            let acc2 = if acc.len() > 0 {
                acc.push('.') + label
            } else {
                label
            };
            assert(name@ =~= acc2);
            assert(spec_read_name(bytes0, p, acc) == spec_read_name(
                bytes0,
                reader.position(),
                name@,
            ));
        }
    }
}

/// The index of the first `.` in `name`, or its length when there is none.
pub open spec fn first_dot(name: Seq<char>) -> int
    decreases name.len(),
{
    if name.len() == 0 {
        0
    } else if name[0] == '.' {
        0
    } else {
        1 + first_dot(name.drop_first())
    }
}

/// `first_dot` points at a dot, and nothing before it is one.
pub proof fn lemma_first_dot(name: Seq<char>)
    ensures
        0 <= first_dot(name) <= name.len(),
        first_dot(name) < name.len() ==> name[first_dot(name)] == '.',
        forall|j: int| 0 <= j < first_dot(name) ==> name[j] != '.',
    decreases name.len(),
{
    if name.len() == 0 {
    } else if name[0] == '.' {
    } else {
        lemma_first_dot(name.drop_first());
        assert forall|j: int| 0 <= j < first_dot(name) implies name[j] != '.' by {
            if j > 0 {
                assert(name.drop_first()[j - 1] == name[j]);
            }
        }
    }
}

/// The wire bytes of the labels of a dotted name, without the terminator:
/// each word between dots becomes its length (low eight bits) followed by
/// the low eight bits of each of its characters. The empty name is one
/// empty word.
pub open spec fn spec_name_words_bytes(name: Seq<char>) -> Seq<u8>
    decreases name.len(),
{
    let d = first_dot(name);
    let enc = seq![(d % 256) as u8] + name.take(d).map(|i: int, c: char| char_to_byte(c));
    if 0 <= d && d < name.len() {
        enc + spec_name_words_bytes(name.skip(d + 1))
    } else {
        enc
    }
}

/// The full wire form of a dotted name: its words, then a zero terminator.
pub open spec fn spec_name_bytes(name: Seq<char>) -> Seq<u8> {
    spec_name_words_bytes(name) + seq![0u8]
}

/// Writes the wire form of the dotted name `s`: each word between dots as a
/// length byte and the word's characters (low eight bits of each), then a
/// zero byte. Writing into a byte buffer cannot fail.
#[verifier::loop_isolation(false)]
pub fn write_dns_encoded_name(writer: &mut DnsWriter, s: &str) -> (r: Result<(), DnsError>)
    ensures
        r == Ok::<(), DnsError>(()),
        final(writer).bytes() == old(writer).bytes() + spec_name_bytes(s@),
{
    let ghost w0 = writer.bytes();
    let ghost v = s@;
    let n = s.unicode_len();
    let mut start: usize = 0;
    proof {
        assert(v.skip(0) =~= v);
    }
    loop
        invariant
            start <= n,
            writer.bytes() + spec_name_words_bytes(v.skip(start as int)) == w0
                + spec_name_words_bytes(v),
        decreases n - start,
    {
        let ghost rem = v.skip(start as int);
        let ghost wb = writer.bytes();
        let mut end: usize = start;
        while end < n && s.get_char(end) != '.'
            invariant
                start <= end <= n,
                forall|j: int| start <= j < end ==> v[j] != '.',
            decreases n - end,
        {
            end = end + 1;
        }
        proof {
            lemma_first_dot(rem);
            let fd = first_dot(rem);
            assert forall|k: int| 0 <= k < rem.len() implies rem[k] == v[start + k] by {}
            if fd < end - start {
                assert(rem[fd] == v[start + fd]);
                assert(false);
            }
            if fd > end - start {
                assert(end < n);
                assert(rem[end - start] == v[end as int]);
                assert(false);
            }
            assert(fd == end - start);
        }
        let wlen = end - start;
        writer.write_u8((wlen % 256) as u8);
        let ghost base = writer.bytes();
        let mut i = start;
        while i < end
            invariant
                start <= i <= end,
                writer.bytes() == base + v.subrange(start as int, i as int).map(
                    |k: int, c: char| char_to_byte(c),
                ),
            decreases end - i,
        {
            let c = s.get_char(i);
            writer.write_u8(((c as u32) % 256) as u8);
            i = i + 1;
            proof {
                assert(v.subrange(start as int, i as int).map(|k: int, c: char| char_to_byte(c))
                    =~= v.subrange(start as int, i - 1).map(|k: int, c: char| char_to_byte(c)).push(
                    char_to_byte(v[i - 1]),
                ));
            }
        }
        proof {
            let d = first_dot(rem);
            let enc = seq![(d % 256) as u8] + rem.take(d).map(|k: int, c: char| char_to_byte(c));
            assert(rem.take(d) =~= v.subrange(start as int, end as int));
            assert(writer.bytes() =~= wb + enc);
        }
        if end == n {
            proof {
                assert(first_dot(rem) == rem.len());
                assert(spec_name_words_bytes(rem) == seq![(rem.len() % 256) as u8] + rem.take(
                    rem.len() as int,
                ).map(|k: int, c: char| char_to_byte(c)));
            }
            writer.write_u8(0);
            proof {
                assert(writer.bytes() =~= w0 + spec_name_bytes(v));
            }
            return Ok(());
        }
        proof {
            let d = first_dot(rem);
            assert(rem.skip(d + 1) =~= v.skip(end + 1));
            let enc = seq![(d % 256) as u8] + rem.take(d).map(|k: int, c: char| char_to_byte(c));
            assert(spec_name_words_bytes(rem) == enc + spec_name_words_bytes(v.skip(end + 1)));
            assert(writer.bytes() + spec_name_words_bytes(v.skip(end + 1)) =~= w0
                + spec_name_words_bytes(v));
        }
        start = end + 1;
    }
}

/// `acc` with `name` appended after a dot, or `name` alone when `acc` is
/// empty: the dotted string a reader holds after decoding `name`'s labels
/// on top of `acc`.
pub open spec fn spec_joined(acc: Seq<char>, name: Seq<char>) -> Seq<char> {
    if acc.len() > 0 {
        acc.push('.') + name
    } else {
        name
    }
}

/// The shape a dotted name must have for its labels to survive the wire:
/// nonempty, every character fits in a byte, and no label is empty (no
/// leading, trailing or doubled dot).
pub open spec fn name_labels_wf(name: Seq<char>) -> bool {
    &&& name.len() >= 1
    &&& (forall|i: int| 0 <= i < name.len() ==> (name[i] as u32) < 256)
    &&& name[0] != '.'
    &&& name[name.len() - 1] != '.'
    &&& (forall|i: int| 0 <= i < name.len() - 1 ==> !(#[trigger] name[i] == '.' && name[i + 1] == '.'))
}

/// A dotted name the codec can reproduce byte-exactly: well-formed labels
/// and at most 255 characters in all.
pub open spec fn name_wf(name: Seq<char>) -> bool {
    name_labels_wf(name) && name.len() <= 255
}

/// A character that fits in a byte comes back from its low eight bits.
proof fn lemma_char_byte_id(c: char)
    requires
        (c as u32) < 256,
    ensures
        byte_to_char(char_to_byte(c)) == c,
{
    let u = c as u32;
    assert(u % 256 == u);
    vstd::utf8::char_u32_cast(c, u);
    assert((char_to_byte(c) as u32) == u);
    assert(byte_to_char(char_to_byte(c)) == (u as char));
}

/// Reading back an encoded name embedded in a larger buffer: with the
/// accumulator `acc` already decoded, the reader finishes with
/// `spec_joined(acc, name)` and stands right after the encoded region.
pub proof fn lemma_read_encoded_name(bytes: Seq<u8>, pos: int, acc: Seq<char>, name: Seq<char>)
    requires
        name_labels_wf(name),
        spec_joined(acc, name).len() <= 255,
        0 <= pos,
        pos + spec_name_bytes(name).len() <= bytes.len(),
        bytes.subrange(pos, pos + spec_name_bytes(name).len()) == spec_name_bytes(name),
    ensures
        spec_read_name(bytes, pos, acc) == Ok::<_, DnsError>(
            (spec_joined(acc, name), pos + spec_name_bytes(name).len()),
        ),
    decreases name.len(),
{
    lemma_first_dot(name);
    let d = first_dot(name);
    assert(d >= 1);
    let word = name.take(d);
    let wbytes = word.map(|i: int, c: char| char_to_byte(c));
    let enc = seq![(d % 256) as u8] + wbytes;
    let nbytes = spec_name_bytes(name);
    let ln = nbytes.len() as int;
    assert(name.len() <= 255) by {
        assert(spec_joined(acc, name).len() >= name.len());
    }
    assert(d % 256 == d);
    assert(bytes[pos] == nbytes[0]);
    assert(nbytes[0] == (d % 256) as u8);
    assert(bytes[pos] as int == d);
    let label = Seq::new(d as nat, |i: int| byte_to_char(bytes[pos + 1 + i]));
    assert(label =~= word) by {
        assert forall|i: int| 0 <= i < d implies label[i] == word[i] by {
            assert(bytes[pos + 1 + i] == nbytes[1 + i]);
            assert(nbytes[1 + i] == wbytes[i]);
            lemma_char_byte_id(word[i]);
        }
    }
    let acc2 = if acc.len() > 0 {
        acc.push('.') + label
    } else {
        label
    };
    if d == name.len() {
        assert(spec_name_words_bytes(name) == enc);
        assert(ln == 1 + d + 1);
        assert(word =~= name);
        assert(acc2 =~= spec_joined(acc, name));
        assert(acc2.len() <= 255);
        assert(bytes[pos + 1 + d] == nbytes[1 + d]);
        assert(nbytes[1 + d] == 0u8);
        assert(spec_read_name(bytes, pos, acc) == spec_read_name(bytes, pos + 1 + d, acc2));
        assert(spec_read_name(bytes, pos + 1 + d, acc2) == Ok::<_, DnsError>(
            (acc2, pos + 1 + d + 1),
        ));
    } else {
        let rest = name.skip(d + 1);
        assert(name[d] == '.');
        assert(d + 1 < name.len()) by {
            assert(name[name.len() - 1] != '.');
        }
        assert(name_labels_wf(rest)) by {
            assert(rest.len() >= 1);
            assert forall|i: int| 0 <= i < rest.len() implies (rest[i] as u32) < 256 by {
                assert(rest[i] == name[d + 1 + i]);
            }
            assert(rest[0] == name[d + 1]);
            assert(!(name[d] == '.' && name[d + 1] == '.'));
            assert(rest[rest.len() - 1] == name[name.len() - 1]);
            assert forall|i: int|
                0 <= i < rest.len() - 1 implies !(#[trigger] rest[i] == '.' && rest[i + 1] == '.') by {
                assert(rest[i] == name[d + 1 + i]);
                assert(rest[i + 1] == name[d + 1 + i + 1]);
            }
        }
        let rbytes = spec_name_bytes(rest);
        assert(spec_name_words_bytes(name) == enc + spec_name_words_bytes(rest));
        assert(nbytes =~= enc + rbytes);
        assert(ln == 1 + d + rbytes.len());
        assert(bytes.subrange(pos + 1 + d, pos + 1 + d + rbytes.len() as int) =~= rbytes) by {
            assert forall|i: int| 0 <= i < rbytes.len() implies bytes[pos + 1 + d + i]
                == rbytes[i] by {
                assert(bytes[pos + 1 + d + i] == nbytes[1 + d + i]);
            }
        }
        let joined = spec_joined(acc, name);
        assert(acc2.len() > 0);
        assert(spec_joined(acc2, rest) =~= joined) by {
            assert(name =~= word + seq!['.'] + rest);
        }
        assert(acc2.len() + 1 + rest.len() == joined.len());
        assert(acc2.len() <= 255);
        lemma_read_encoded_name(bytes, pos + 1 + d, acc2, rest);
        assert(spec_read_name(bytes, pos, acc) == spec_read_name(bytes, pos + 1 + d, acc2));
    }
}

/// Law: decoding the wire form of a well-formed dotted name yields exactly
/// that name back and consumes exactly its bytes.
pub proof fn lemma_name_round_trip(name: Seq<char>)
    requires
        name_wf(name),
    ensures
        spec_read_name(spec_name_bytes(name), 0, Seq::<char>::empty()) == Ok::<_, DnsError>(
            (name, spec_name_bytes(name).len() as int),
        ),
{
    let bytes = spec_name_bytes(name);
    assert(bytes.subrange(0, bytes.len() as int) =~= bytes);
    lemma_read_encoded_name(bytes, 0, Seq::<char>::empty(), name);
}

} // verus!
