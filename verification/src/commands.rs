//! What a connection makes of the lines a player types: the name asked
//! for on joining, and the commands after that.

use vstd::prelude::*;
use vstd::string::StringExecFns;

use crate::channel::ChannelPayload;
use crate::text::push_char;

verus! {

/// Whether a byte is kept in a command line: ASCII letters and digits,
/// the space and the question mark.
pub open spec fn command_byte(b: u8) -> bool {
    (48 <= b <= 57) || (65 <= b <= 90) || (97 <= b <= 122) || b == 32 || b == 63
}

/// Whether a byte is an ASCII letter.
pub open spec fn name_byte(b: u8) -> bool {
    (65 <= b <= 90) || (97 <= b <= 122)
}

/// The bytes of a command line that are kept, in order.
pub open spec fn command_bytes(line: Seq<u8>) -> Seq<u8>
    decreases line.len(),
{
    if line.len() == 0 {
        Seq::empty()
    } else {
        command_bytes(line.drop_last()) + (if command_byte(line.last()) {
            seq![line.last()]
        } else {
            Seq::empty()
        })
    }
}

/// The letters of a line, in order.
pub open spec fn name_bytes(line: Seq<u8>) -> Seq<u8>
    decreases line.len(),
{
    if line.len() == 0 {
        Seq::empty()
    } else {
        name_bytes(line.drop_last()) + (if name_byte(line.last()) {
            seq![line.last()]
        } else {
            Seq::empty()
        })
    }
}

/// Splitting by spaces, one byte at a time: the words finished so far,
/// and the word under way.
pub open spec fn split_state(s: Seq<u8>) -> (Seq<Seq<u8>>, Seq<u8>)
    decreases s.len(),
{
    if s.len() == 0 {
        (Seq::empty(), Seq::empty())
    } else {
        let (done, cur) = split_state(s.drop_last());
        let b = s.last();
        if b == 32 {
            if cur.len() > 0 {
                (done.push(cur), Seq::empty())
            } else {
                (done, Seq::empty())
            }
        } else {
            (done, cur.push(b))
        }
    }
}

/// The words of a line: the pieces between spaces that are not empty.
pub open spec fn words_of(s: Seq<u8>) -> Seq<Seq<u8>> {
    let (done, cur) = split_state(s);
    if cur.len() > 0 {
        done.push(cur)
    } else {
        done
    }
}

/// The words of a command line.
pub open spec fn command_words(line: Seq<u8>) -> Seq<Seq<u8>> {
    words_of(command_bytes(line))
}

/// The lower-case form of an ASCII byte.
pub open spec fn lower_byte(b: u8) -> u8 {
    if 65 <= b <= 90 {
        (b + 32) as u8
    } else {
        b
    }
}

/// The text of ASCII bytes.
pub open spec fn ascii_text(s: Seq<u8>) -> Seq<char> {
    s.map_values(|b: u8| b as char)
}

/// The lower-case text of ASCII bytes.
pub open spec fn lower_text(s: Seq<u8>) -> Seq<char> {
    s.map_values(|b: u8| lower_byte(b) as char)
}

/// What a command line becomes: one word is a command, two words are a
/// command and its target (both in lower case); more words are refused
/// with a message naming the first of them as typed.
pub open spec fn spec_parse(id: u128, words: Seq<Seq<u8>>) -> Result<(u128, Seq<char>, Option<Seq<char>>), Seq<char>> {
    if words.len() == 1 {
        Ok((id, lower_text(words[0]), None))
    } else if words.len() == 2 {
        Ok((id, lower_text(words[0]), Some(lower_text(words[1]))))
    } else {
        Err("Unknown command: "@ + ascii_text(words[0]))
    }
}

/// The plain form of a request that a command line produces.
pub open spec fn payload_view(p: ChannelPayload) -> (u128, Seq<char>, Option<Seq<char>>) {
    match p {
        ChannelPayload::Cmd((id, c)) => (id, c@, None),
        ChannelPayload::Target((id, c, t)) => (id, c@, Some(t@)),
        ChannelPayload::Join((id, n)) => (id, n@, None),
    }
}

/// The bytes of a line that a command keeps.
pub fn keep_command_bytes(line: &Vec<u8>) -> (r: Vec<u8>)
    ensures
        r@ == command_bytes(line@),
{
    let mut r: Vec<u8> = Vec::new();
    let mut i: usize = 0;
    while i < line.len()
        invariant
            i <= line@.len(),
            r@ == command_bytes(line@.take(i as int)),
        decreases line@.len() - i,
    {
        let b = line[i];
        proof {
            assert(line@.take(i + 1).drop_last() =~= line@.take(i as int));
        }
        if (b >= 48 && b <= 57) || (b >= 65 && b <= 90) || (b >= 97 && b <= 122) || b == 32 || b == 63 {
            r.push(b);
        }
        assert(r@ =~= command_bytes(line@.take(i + 1)));
        i = i + 1;
    }
    assert(line@.take(line@.len() as int) =~= line@);
    r
}

/// The letters of a line.
pub fn keep_name_bytes(line: &Vec<u8>) -> (r: Vec<u8>)
    ensures
        r@ == name_bytes(line@),
{
    let mut r: Vec<u8> = Vec::new();
    let mut i: usize = 0;
    while i < line.len()
        invariant
            i <= line@.len(),
            r@ == name_bytes(line@.take(i as int)),
        decreases line@.len() - i,
    {
        let b = line[i];
        proof {
            assert(line@.take(i + 1).drop_last() =~= line@.take(i as int));
        }
        if (b >= 65 && b <= 90) || (b >= 97 && b <= 122) {
            r.push(b);
        }
        assert(r@ =~= name_bytes(line@.take(i + 1)));
        i = i + 1;
    }
    assert(line@.take(line@.len() as int) =~= line@);
    r
}

/// Splits bytes into the words between spaces.
pub fn split_words(s: &Vec<u8>) -> (r: Vec<Vec<u8>>)
    ensures
        r@.map_values(|w: Vec<u8>| w@) == words_of(s@),
{
    let mut done: Vec<Vec<u8>> = Vec::new();
    let mut cur: Vec<u8> = Vec::new();
    let mut i: usize = 0;
    while i < s.len()
        invariant
            i <= s@.len(),
            (done@.map_values(|w: Vec<u8>| w@), cur@) == split_state(s@.take(i as int)),
        decreases s@.len() - i,
    {
        let b = s[i];
        proof {
            assert(s@.take(i + 1).drop_last() =~= s@.take(i as int));
            assert(s@.take(i + 1).last() == b);
        }
        let ghost old_done = done@.map_values(|w: Vec<u8>| w@);
        if b == 32 {
            if cur.len() > 0 {
                let finished = cur;
                cur = Vec::new();
                done.push(finished);
                assert(done@.map_values(|w: Vec<u8>| w@) =~= old_done.push(finished@));
            } else {
                cur = Vec::new();
                assert(cur@ =~= Seq::<u8>::empty());
            }
        } else {
            cur.push(b);
        }
        i = i + 1;
    }
    assert(s@.take(s@.len() as int) =~= s@);
    if cur.len() > 0 {
        let ghost old_done = done@.map_values(|w: Vec<u8>| w@);
        let ghost last = cur@;
        done.push(cur);
        assert(done@.map_values(|w: Vec<u8>| w@) =~= old_done.push(last));
    }
    done
}

/// The words of a command line, as typed.
pub fn command_line_words(line: &Vec<u8>) -> (r: Vec<Vec<u8>>)
    ensures
        r@.map_values(|w: Vec<u8>| w@) == command_words(line@),
{
    let kept = keep_command_bytes(line);
    split_words(&kept)
}

/// The text of ASCII bytes, in lower case when `lower` is set.
fn bytes_to_text(s: &Vec<u8>, lower: bool) -> (r: String)
    requires
        forall|i: int| 0 <= i < s@.len() ==> s@[i] < 128,
    ensures
        r@ == if lower { lower_text(s@) } else { ascii_text(s@) },
{
    let mut r = String::new();
    let mut i: usize = 0;
    while i < s.len()
        invariant
            i <= s@.len(),
            forall|k: int| 0 <= k < s@.len() ==> s@[k] < 128,
            r@ == if lower { lower_text(s@.take(i as int)) } else { ascii_text(s@.take(i as int)) },
        decreases s@.len() - i,
    {
        let b = s[i];
        let c: u8 = if lower && b >= 65 && b <= 90 {
            b + 32
        } else {
            b
        };
        push_char(&mut r, c as char);
        proof {
            if lower {
                assert(lower_text(s@.take(i + 1)) =~= lower_text(s@.take(i as int)).push(c as char));
            } else {
                assert(ascii_text(s@.take(i + 1)) =~= ascii_text(s@.take(i as int)).push(c as char));
            }
        }
        i = i + 1;
    }
    assert(s@.take(s@.len() as int) =~= s@);
    r
}

/// The bytes that a command line keeps are command bytes.
pub proof fn lemma_command_bytes(line: Seq<u8>)
    ensures
        forall|k: int| 0 <= k < command_bytes(line).len() ==> command_byte(#[trigger] command_bytes(line)[k]),
    decreases line.len(),
{
    if line.len() > 0 {
        let t = line.drop_last();
        lemma_command_bytes(t);
        let prev = command_bytes(t);
        let r = command_bytes(line);
        assert forall|k: int| 0 <= k < r.len() implies command_byte(#[trigger] r[k]) by {
            if k < prev.len() {
                assert(r[k] == prev[k]);
            } else {
                assert(r[k] == line.last());
            }
        }
    }
}

/// The letters of a line are letters.
pub proof fn lemma_name_bytes(line: Seq<u8>)
    ensures
        forall|k: int| 0 <= k < name_bytes(line).len() ==> name_byte(#[trigger] name_bytes(line)[k]),
    decreases line.len(),
{
    if line.len() > 0 {
        let t = line.drop_last();
        lemma_name_bytes(t);
        let prev = name_bytes(t);
        let r = name_bytes(line);
        assert forall|k: int| 0 <= k < r.len() implies name_byte(#[trigger] r[k]) by {
            if k < prev.len() {
                assert(r[k] == prev[k]);
            } else {
                assert(r[k] == line.last());
            }
        }
    }
}

/// A command line keeps exactly its ASCII letters, its ASCII digits, its
/// spaces and its question marks, in the order typed.
pub proof fn command_lines_keep_letters_digits_spaces(line: Seq<u8>)
    ensures
        command_bytes(line) == line.filter(
            |b: u8| (('0' as u8) <= b <= ('9' as u8)) || (('A' as u8) <= b <= ('Z' as u8)) || (('a' as u8) <= b <= ('z' as u8)) || b == (' ' as u8) || b == ('?' as u8),
        ),
    decreases line.len(),
{
    let keep = |b: u8| (('0' as u8) <= b <= ('9' as u8)) || (('A' as u8) <= b <= ('Z' as u8)) || (('a' as u8) <= b <= ('z' as u8)) || b == (' ' as u8) || b == ('?' as u8);
    if line.len() == 0 {
        assert(line.filter(keep) =~= Seq::<u8>::empty());
    } else {
        let t = line.drop_last();
        command_lines_keep_letters_digits_spaces(t);
        assert(t.push(line.last()) =~= line);
        t.lemma_filter_push(line.last(), keep);
        assert(command_bytes(line) =~= line.filter(keep));
    }
}

/// A name keeps exactly the ASCII letters of the line it was typed on, in
/// order, capitals and small letters alike.
pub proof fn names_keep_every_letter(line: Seq<u8>)
    ensures
        name_bytes(line) == line.filter(|b: u8| (('A' as u8) <= b <= ('Z' as u8)) || (('a' as u8) <= b <= ('z' as u8))),
    decreases line.len(),
{
    let keep = |b: u8| (('A' as u8) <= b <= ('Z' as u8)) || (('a' as u8) <= b <= ('z' as u8));
    if line.len() == 0 {
        assert(line.filter(keep) =~= Seq::<u8>::empty());
    } else {
        let t = line.drop_last();
        names_keep_every_letter(t);
        assert(t.push(line.last()) =~= line);
        t.lemma_filter_push(line.last(), keep);
        assert(name_bytes(line) =~= line.filter(keep));
    }
}

/// Lower-casing ASCII text turns each capital letter into its small
/// letter and keeps every other character; the text as typed keeps every
/// character.
pub proof fn lower_text_lowers_capitals(s: Seq<u8>, i: int)
    requires
        0 <= i < s.len(),
        s[i] < 128,
    ensures
        lower_text(s).len() == s.len(),
        ascii_text(s).len() == s.len(),
        ascii_text(s)[i] as u32 == s[i],
        ('A' as u8) <= s[i] <= ('Z' as u8) ==> lower_text(s)[i] as u32 == s[i] + 32,
        !(('A' as u8) <= s[i] <= ('Z' as u8)) ==> lower_text(s)[i] as u32 == s[i],
{
}

/// Whether a word is a piece of ASCII text without spaces.
pub open spec fn plain_word(w: Seq<u8>) -> bool {
    forall|k: int| 0 <= k < w.len() ==> #[trigger] w[k] != 32 && w[k] < 128
}

/// Splitting ASCII text gives words that are not empty and hold no
/// space.
pub proof fn lemma_split_state(s: Seq<u8>)
    requires
        forall|k: int| 0 <= k < s.len() ==> #[trigger] s[k] < 128,
    ensures
        plain_word(split_state(s).1),
        forall|j: int| 0 <= j < split_state(s).0.len() ==> (#[trigger] split_state(s).0[j]).len() > 0 && plain_word(split_state(s).0[j]),
    decreases s.len(),
{
    if s.len() > 0 {
        let t = s.drop_last();
        assert forall|k: int| 0 <= k < t.len() implies #[trigger] t[k] < 128 by {
            assert(t[k] == s[k]);
        }
        lemma_split_state(t);
        let (done, cur) = split_state(t);
        let b = s.last();
        if b != 32 {
            assert(s[s.len() - 1] < 128);
            assert forall|k: int| 0 <= k < cur.push(b).len() implies #[trigger] cur.push(b)[k] != 32 && cur.push(b)[k] < 128 by {
                if k < cur.len() {
                    assert(cur.push(b)[k] == cur[k]);
                }
            }
        }
    }
}

/// The words of a line are pieces of ASCII text that are not empty and
/// hold no space.
pub proof fn lemma_words_plain(s: Seq<u8>)
    requires
        forall|k: int| 0 <= k < s.len() ==> #[trigger] s[k] < 128,
    ensures
        forall|j: int| 0 <= j < words_of(s).len() ==> (#[trigger] words_of(s)[j]).len() > 0 && plain_word(words_of(s)[j]),
{
    lemma_split_state(s);
}

/// The words of a command line are not empty, and each of their bytes is
/// a command byte other than the space.
pub proof fn lemma_command_words(line: Seq<u8>)
    ensures
        forall|j: int| 0 <= j < command_words(line).len() ==> (#[trigger] command_words(line)[j]).len() > 0,
        forall|j: int, k: int|
            0 <= j < command_words(line).len() && 0 <= k < command_words(line)[j].len() ==> {
                let b = #[trigger] command_words(line)[j][k];
                command_byte(b) && b != 32
            },
{
    lemma_command_bytes(line);
    let s = command_bytes(line);
    lemma_words_plain(s);
    lemma_split_bytes_from(s);
}

/// Every byte of a word of `s` is a byte of `s`.
pub proof fn lemma_split_bytes_from(s: Seq<u8>)
    ensures
        forall|j: int, k: int| 0 <= j < words_of(s).len() && 0 <= k < words_of(s)[j].len() ==> s.contains(#[trigger] words_of(s)[j][k]),
{
    lemma_split_state_bytes_from(s);
}

/// Every byte of a word, finished or under way, is a byte of `s`.
proof fn lemma_split_state_bytes_from(s: Seq<u8>)
    ensures
        forall|k: int| 0 <= k < split_state(s).1.len() ==> s.contains(#[trigger] split_state(s).1[k]),
        forall|j: int, k: int|
            0 <= j < split_state(s).0.len() && 0 <= k < split_state(s).0[j].len() ==> s.contains(#[trigger] split_state(s).0[j][k]),
    decreases s.len(),
{
    if s.len() > 0 {
        let t = s.drop_last();
        lemma_split_state_bytes_from(t);
        assert forall|x: u8| t.contains(x) implies s.contains(x) by {
            let i = choose|i: int| 0 <= i < t.len() && t[i] == x;
            assert(s[i] == x);
        }
        let (done, cur) = split_state(t);
        let b = s.last();
        assert(s[s.len() - 1] == b);
        if b != 32 {
            assert forall|k: int| 0 <= k < cur.push(b).len() implies s.contains(#[trigger] cur.push(b)[k]) by {
                if k < cur.len() {
                    assert(cur.push(b)[k] == cur[k]);
                    assert(t.contains(cur[k]));
                }
            }
        } else if cur.len() > 0 {
            assert forall|j: int, k: int| 0 <= j < done.push(cur).len() && 0 <= k < done.push(cur)[j].len() implies s.contains(#[trigger] done.push(cur)[j][k]) by {
                if j < done.len() {
                    assert(t.contains(done[j][k]));
                } else {
                    assert(t.contains(cur[k]));
                }
            }
        }
    }
}

/// Turns a command line into a request of connection `id`: a command,
/// or a command with a target; a line of more words is refused with the
/// message to write back. A line without words is left out: the
/// connection fails on it.
pub fn parse_command(id: u128, line: &Vec<u8>) -> (r: Result<ChannelPayload, String>)
    requires
        command_words(line@).len() > 0,
    ensures
        match r {
            Ok(p) => {
                &&& !(p is Join)
                &&& spec_parse(id, command_words(line@)) == Ok::<_, Seq<char>>(payload_view(p))
            },
            Err(m) => spec_parse(id, command_words(line@)) == Err::<(u128, Seq<char>, Option<Seq<char>>), _>(m@),
        },
{
    let words = command_line_words(line);
    let ghost ws = command_words(line@);
    proof {
        lemma_command_words(line@);
        assert(words@.map_values(|w: Vec<u8>| w@)[0] == words@[0]@);
    }
    assert forall|k: int| 0 <= k < words@[0]@.len() implies #[trigger] words@[0]@[k] < 128 by {
        assert(ws[0] == words@[0]@);
        assert(command_byte(ws[0][k]));
    }
    if words.len() == 1 {
        let c = bytes_to_text(&words[0], true);
        Ok(ChannelPayload::Cmd((id, c)))
    } else if words.len() == 2 {
        assert(words@.map_values(|w: Vec<u8>| w@)[1] == words@[1]@);
        assert forall|k: int| 0 <= k < words@[1]@.len() implies #[trigger] words@[1]@[k] < 128 by {
            assert(ws[1] == words@[1]@);
            assert(command_byte(ws[1][k]));
        }
        let c = bytes_to_text(&words[0], true);
        let t = bytes_to_text(&words[1], true);
        Ok(ChannelPayload::Target((id, c, t)))
    } else {
        let w = bytes_to_text(&words[0], false);
        let mut m = String::new();
        m.append("Unknown command: ");
        m.append(w.as_str());
        Err(m)
    }
}

/// The name a joining player chose on a line: its letters, when there are
/// at least two of them.
pub open spec fn spec_player_name(line: Seq<u8>) -> Option<Seq<char>> {
    if name_bytes(line).len() >= 2 {
        Some(ascii_text(name_bytes(line)))
    } else {
        None
    }
}

/// Reads the name a joining player typed; `None` asks for another try.
pub fn player_name(line: &Vec<u8>) -> (r: Option<String>)
    ensures
        match r {
            Some(n) => spec_player_name(line@) == Some(n@),
            None => spec_player_name(line@) is None,
        },
{
    let letters = keep_name_bytes(line);
    proof {
        lemma_name_bytes(line@);
    }
    let name = bytes_to_text(&letters, false);
    if letters.len() >= 2 {
        Some(name)
    } else {
        None
    }
}

/// What a player whose name is accepted reads.
pub fn welcome_text(name: &String) -> (r: String)
    ensures
        r@ == "Welcome "@ + name@ + "!\n\n"@,
{
    let mut t = String::new();
    t.append("Welcome ");
    t.append(name.as_str());
    t.append("!\n\n");
    t
}

} // verus!

verus! {

/// The commands and targets that a line yields hold no upper-case letter.
pub proof fn parsed_words_are_lower_case(w: Seq<u8>)
    ensures
        forall|k: int| 0 <= k < lower_text(w).len() ==> !('A' <= #[trigger] lower_text(w)[k] <= 'Z'),
{
    assert forall|k: int| 0 <= k < lower_text(w).len() implies !('A' <= #[trigger] lower_text(w)[k] <= 'Z') by {
        let b = w[k];
        assert(lower_text(w)[k] == lower_byte(b) as char);
        if 65 <= b <= 90 {
            assert(lower_byte(b) == b + 32);
        }
    }
}

/// A name is accepted only when it holds at least two characters, and it
/// holds letters only.
pub proof fn accepted_names_are_letters(line: Seq<u8>)
    ensures
        spec_player_name(line) matches Some(n) ==> n.len() >= 2 && forall|k: int|
            0 <= k < n.len() ==> ('a' <= #[trigger] n[k] <= 'z' || 'A' <= n[k] <= 'Z'),
{
    lemma_name_bytes(line);
    if let Some(n) = spec_player_name(line) {
        assert forall|k: int| 0 <= k < n.len() implies ('a' <= #[trigger] n[k] <= 'z' || 'A' <= n[k] <= 'Z') by {
            let b = name_bytes(line)[k];
            assert(name_byte(b));
            assert(n[k] == b as char);
        }
    }
}

} // verus!
