//! Chunking of file contents, room keys, relay addresses, file names and the
//! texts shown to users.

use vstd::prelude::*;
use vstd::string::*;

verus! {

broadcast use vstd::seq_lib::group_seq_properties;

/// The largest number of file bytes carried by one content message.
pub const CHUNK_SIZE: usize = 1_000_000;

/// The number of chunks in which `size` bytes travel: the quotient of `size`
/// by the chunk size, rounded up.
pub open spec fn chunk_count(size: int) -> int {
    (size + CHUNK_SIZE - 1) / (CHUNK_SIZE as int)
}

/// The chunks of `data`, in order: full chunks of `CHUNK_SIZE` bytes and a
/// shorter last one where the length is not a multiple of it.
pub open spec fn chunks_of(data: Seq<u8>) -> Seq<Seq<u8>>
    decreases data.len(),
{
    if data.len() == 0 {
        Seq::empty()
    } else if data.len() <= CHUNK_SIZE {
        seq![data]
    } else {
        seq![data.take(CHUNK_SIZE as int)] + chunks_of(data.skip(CHUNK_SIZE as int))
    }
}

/// The number of chunks in which a file of `size` bytes is sent and relayed.
pub fn calc_chunks(size: u64) -> (n: u64)
    ensures
        n == chunk_count(size as int),
{
    let whole = size / 1_000_000;
    if size % 1_000_000 == 0 {
        whole
    } else {
        whole + 1
    }
}

/// Splitting into chunks loses and adds nothing, gives each chunk between one
/// and `CHUNK_SIZE` bytes, and gives `chunk_count` of the length chunks.
pub proof fn lemma_chunks_of(data: Seq<u8>)
    ensures
        chunks_of(data).flatten() == data,
        chunks_of(data).len() == chunk_count(data.len() as int),
        forall|i: int|
            0 <= i < chunks_of(data).len() ==> 0 < #[trigger] chunks_of(data)[i].len() <= CHUNK_SIZE,
    decreases data.len(),
{
    if data.len() == 0 {
    } else if data.len() <= CHUNK_SIZE {
        let c = chunks_of(data);
        assert(c.drop_first() =~= Seq::<Seq<u8>>::empty());
        assert(c.flatten() == c.first() + c.drop_first().flatten());
        assert(data + Seq::<u8>::empty() =~= data);
    } else {
        let rest = data.skip(CHUNK_SIZE as int);
        lemma_chunks_of(rest);
        let c = chunks_of(data);
        assert(c.first() == data.take(CHUNK_SIZE as int));
        assert(c.drop_first() =~= chunks_of(rest));
        assert(data.take(CHUNK_SIZE as int) + rest =~= data);
        assert(c.flatten() == c.first() + c.drop_first().flatten());
        assert forall|i: int| 0 <= i < c.len() implies 0 < #[trigger] c[i].len() <= CHUNK_SIZE by {
            if i > 0 {
                assert(c[i] == chunks_of(rest)[i - 1]);
            }
        }
    }
}

/// Splits `data` into the chunks in which it is sent: `chunks_of(data)`.
pub fn split_into_chunks(data: &[u8]) -> (chunks: Vec<Vec<u8>>)
    ensures
        chunks.deep_view() == chunks_of(data@),
{
    let mut chunks: Vec<Vec<u8>> = Vec::new();
    let mut start: usize = 0;
    let len = data.len();
    while start < len
        invariant
            len == data@.len(),
            start <= len,
            chunks.deep_view() + chunks_of(data@.skip(start as int)) == chunks_of(data@),
        decreases len - start,
    {
        let end = if len - start <= CHUNK_SIZE {
            len
        } else {
            start + CHUNK_SIZE
        };
        let piece = vstd::slice::slice_to_vec(&data[start..end]);
        proof {
            let rest = data@.skip(start as int);
            assert(piece@ =~= rest.take((end - start) as int));
            if rest.len() > CHUNK_SIZE {
                assert(rest.skip(CHUNK_SIZE as int) =~= data@.skip(end as int));
                assert(chunks_of(rest) == seq![piece@] + chunks_of(data@.skip(end as int)));
            } else {
                assert(piece@ =~= rest);
                assert(data@.skip(end as int) =~= Seq::<u8>::empty());
                assert(chunks_of(rest) == seq![piece@] + chunks_of(data@.skip(end as int)));
            }
        }
        let ghost before = chunks.deep_view();
        let ghost before_vec = chunks@;
        chunks.push(piece);
        proof {
            assert(chunks@ == before_vec.push(piece));
            assert forall|k: int| 0 <= k < chunks.deep_view().len() implies #[trigger] chunks.deep_view()[k]
                == before.push(piece@)[k] by {
                if k < before.len() {
                    assert(chunks@[k] == before_vec[k]);
                }
            }
            assert(chunks.deep_view() =~= before.push(piece@));
            assert(chunks.deep_view() + chunks_of(data@.skip(end as int)) =~= before + (seq![piece@]
                + chunks_of(data@.skip(end as int))));
        }
        start = end;
    }
    proof {
        assert(data@.skip(len as int) =~= Seq::<u8>::empty());
        assert(chunks.deep_view() + Seq::<Seq<u8>>::empty() =~= chunks.deep_view());
    }
    chunks
}


/// A word of the room-key word list: lowercase ASCII letters with single
/// hyphens between some of them, so it starts with a letter.
pub open spec fn is_key_word(word: Seq<char>) -> bool {
    &&& word.len() > 0
    &&& 'a' <= word[0] <= 'z'
    &&& forall|i: int| 0 <= i < word.len() ==> ('a' <= #[trigger] word[i] <= 'z' || word[i] == '-')
}

/// A word of a room key: non-empty, made of lowercase ASCII letters only.
pub open spec fn is_plain_word(word: Seq<char>) -> bool {
    &&& word.len() > 0
    &&& forall|i: int| 0 <= i < word.len() ==> 'a' <= #[trigger] word[i] <= 'z'
}

/// The words joined into one sequence, with `sep` between each two.
pub open spec fn join_words(words: Seq<Seq<char>>, sep: char) -> Seq<char>
    decreases words.len(),
{
    if words.len() == 0 {
        Seq::empty()
    } else if words.len() == 1 {
        words[0]
    } else {
        join_words(words.drop_last(), sep) + seq![sep] + words.last()
    }
}

/// `s` is `n` words of the key word list joined by `sep`.
pub open spec fn is_key_phrase(s: Seq<char>, n: int, sep: char) -> bool {
    exists|words: Seq<Seq<char>>|
        words.len() == n && (forall|i: int| 0 <= i < words.len() ==> is_key_word(#[trigger] words[i]))
            && s == join_words(words, sep)
}

/// `s` is a room key of `n` words: `n` words of lowercase letters joined by
/// hyphens, so that it splits at its hyphens into exactly `n` parts.
pub open spec fn is_room_key(s: Seq<char>, n: int) -> bool {
    exists|words: Seq<Seq<char>>|
        words.len() == n && (forall|i: int| 0 <= i < words.len() ==> is_plain_word(#[trigger] words[i]))
            && s == join_words(words, '-')
}

/// The room key made of a phrase: each space becomes a hyphen and the
/// hyphens inside words are dropped, so that only the words' boundaries are
/// marked.
pub open spec fn room_key_of(phrase: Seq<char>) -> Seq<char>
    decreases phrase.len(),
{
    if phrase.len() == 0 {
        Seq::empty()
    } else {
        let rest = room_key_of(phrase.drop_last());
        let c = phrase.last();
        if c == '-' {
            rest
        } else if c == ' ' {
            rest.push('-')
        } else {
            rest.push(c)
        }
    }
}

/// Calls `parity_wordlist::random_phrase`: `no_of_words` words drawn at random
/// from the crate's word list, joined by single spaces (each word is appended
/// after a space and the leading space is trimmed). Each word of that list is
/// lowercase ASCII letters with single hyphens between some of them (such as
/// `t-shirt`). Which words are drawn is left open: it depends on the operating
/// system's random source.
#[verifier::external_body]
fn random_phrase(no_of_words: usize) -> (phrase: String)
    ensures
        is_key_phrase(phrase@, no_of_words as int, ' '),
{
    parity_wordlist::random_phrase(no_of_words)
}

/// Calls `String::push`, which appends the character `c` at the end of the
/// string; the contract claims exactly that of the string's characters.
#[verifier::external_body]
fn push_char(s: &mut String, c: char)
    ensures
        final(s)@ == old(s)@.push(c),
{
    s.push(c)
}

/// Making a key of two pieces one after the other makes a key of each.
proof fn lemma_room_key_of_add(a: Seq<char>, b: Seq<char>)
    ensures
        room_key_of(a + b) == room_key_of(a) + room_key_of(b),
    decreases b.len(),
{
    if b.len() == 0 {
        assert(a + b =~= a);
        assert(room_key_of(a) + Seq::<char>::empty() =~= room_key_of(a));
    } else {
        lemma_room_key_of_add(a, b.drop_last());
        assert((a + b).drop_last() =~= a + b.drop_last());
        assert((a + b).last() == b.last());
        let ka = room_key_of(a);
        let kb = room_key_of(b.drop_last());
        assert((ka + kb).push('-') =~= ka + kb.push('-'));
        assert((ka + kb).push(b.last()) =~= ka + kb.push(b.last()));
    }
}

/// The key of a stretch of letters and hyphens holds only letters.
proof fn lemma_room_key_of_letters(w: Seq<char>)
    requires
        forall|i: int| 0 <= i < w.len() ==> ('a' <= #[trigger] w[i] <= 'z' || w[i] == '-'),
    ensures
        forall|i: int| 0 <= i < room_key_of(w).len() ==> 'a' <= #[trigger] room_key_of(w)[i] <= 'z',
    decreases w.len(),
{
    if w.len() > 0 {
        let init = w.drop_last();
        assert forall|i: int| 0 <= i < init.len() implies ('a' <= #[trigger] init[i] <= 'z' || init[i] == '-') by {
            assert(init[i] == w[i]);
        }
        lemma_room_key_of_letters(init);
        let c = w.last();
        assert(c == w[w.len() - 1]);
        let rest = room_key_of(init);
        let k = room_key_of(w);
        assert forall|i: int| 0 <= i < k.len() implies 'a' <= #[trigger] k[i] <= 'z' by {
            if c != '-' {
                assert(k == rest.push(c));
                if i < rest.len() {
                    assert(k[i] == rest[i]);
                }
            } else {
                assert(k == rest);
            }
        }
    }
}

/// The key of a word of the list is a word of letters only.
proof fn lemma_room_key_of_word(w: Seq<char>)
    requires
        is_key_word(w),
    ensures
        is_plain_word(room_key_of(w)),
{
    lemma_room_key_of_letters(w);
    let head = seq![w[0]];
    lemma_room_key_of_add(head, w.skip(1));
    assert(head + w.skip(1) =~= w);
    assert(head.drop_last() =~= Seq::<char>::empty());
    assert(room_key_of(head.drop_last()) == Seq::<char>::empty());
    assert(head.last() == w[0]);
    assert(room_key_of(head) == Seq::<char>::empty().push(w[0]));
    assert(room_key_of(head).len() == 1);
}

/// The key of list words joined by spaces is their keys joined by hyphens.
proof fn lemma_room_key_of_join(words: Seq<Seq<char>>)
    requires
        forall|i: int| 0 <= i < words.len() ==> is_key_word(#[trigger] words[i]),
    ensures
        room_key_of(join_words(words, ' ')) == join_words(words.map_values(|w: Seq<char>| room_key_of(w)), '-'),
    decreases words.len(),
{
    let keys = words.map_values(|w: Seq<char>| room_key_of(w));
    if words.len() == 0 {
    } else if words.len() == 1 {
        assert(keys[0] == room_key_of(words[0]));
    } else {
        let init = words.drop_last();
        assert forall|i: int| 0 <= i < init.len() implies is_key_word(#[trigger] init[i]) by {
            assert(init[i] == words[i]);
        }
        lemma_room_key_of_join(init);
        assert(keys.drop_last() =~= init.map_values(|w: Seq<char>| room_key_of(w)));
        let a = join_words(init, ' ');
        lemma_room_key_of_add(a + seq![' '], words.last());
        lemma_room_key_of_add(a, seq![' ']);
        assert(seq![' '].drop_last() =~= Seq::<char>::empty());
        assert(room_key_of(seq![' ']) =~= seq!['-']);
        assert(keys.last() == room_key_of(words.last()));
    }
}

/// The character that stands for `c` in a room key made of a phrase without
/// hyphens.
pub open spec fn key_char(c: char) -> char {
    if c == ' ' {
        '-'
    } else {
        c
    }
}

/// Of a phrase without hyphens, the key is the phrase with each space
/// turned into a hyphen, character for character.
pub proof fn lemma_room_key_of_plain_phrase(p: Seq<char>)
    requires
        !p.contains('-'),
    ensures
        room_key_of(p).len() == p.len(),
        forall|i: int| 0 <= i < p.len() ==> #[trigger] room_key_of(p)[i] == key_char(p[i]),
    decreases p.len(),
{
    if p.len() > 0 {
        let init = p.drop_last();
        assert(!init.contains('-')) by {
            if init.contains('-') {
                let j = choose|j: int| 0 <= j < init.len() && init[j] == '-';
                assert(p[j] == '-');
            }
        }
        lemma_room_key_of_plain_phrase(init);
        assert(p.last() == p[p.len() - 1]);
        assert(p.last() != '-');
        let k = room_key_of(p);
        assert forall|i: int| 0 <= i < p.len() implies #[trigger] k[i] == key_char(p[i]) by {
            if i < init.len() {
                assert(init[i] == p[i]);
            }
        }
    }
}

/// Different phrases without hyphens make different room keys: two draws
/// that differ give two keys that differ.
pub proof fn lemma_room_keys_differ(p1: Seq<char>, p2: Seq<char>)
    requires
        !p1.contains('-'),
        !p2.contains('-'),
        p1 != p2,
    ensures
        room_key_of(p1) != room_key_of(p2),
{
    lemma_room_key_of_plain_phrase(p1);
    lemma_room_key_of_plain_phrase(p2);
    if room_key_of(p1) == room_key_of(p2) {
        assert forall|i: int| 0 <= i < p1.len() implies p1[i] == p2[i] by {
            assert(room_key_of(p1)[i] == key_char(p1[i]));
            assert(room_key_of(p2)[i] == key_char(p2[i]));
            assert(p1[i] != '-');
            assert(p2[i] != '-');
        }
        assert(p1 =~= p2);
    }
}

/// The room key made of `phrase`: `room_key_of(phrase)`.
pub fn room_key_from_phrase(phrase: &str) -> (key: String)
    ensures
        key@ == room_key_of(phrase@),
{
    let n = phrase.unicode_len();
    let mut key = String::new();
    let mut i: usize = 0;
    while i < n
        invariant
            n == phrase@.len(),
            i <= n,
            key@ == room_key_of(phrase@.take(i as int)),
        decreases n - i,
    {
        let c = phrase.get_char(i);
        if c == ' ' {
            push_char(&mut key, '-');
        } else if c != '-' {
            push_char(&mut key, c);
        }
        proof {
            assert(phrase@.take(i + 1).drop_last() =~= phrase@.take(i as int));
            assert(phrase@.take(i + 1).last() == c);
        }
        i = i + 1;
    }
    proof {
        assert(phrase@.take(n as int) =~= phrase@);
    }
    key
}

/// Whether `s` holds a hyphen.
pub fn has_hyphen(s: &str) -> (found: bool)
    ensures
        found == s@.contains('-'),
{
    let n = s.unicode_len();
    let mut i: usize = 0;
    while i < n
        invariant
            n == s@.len(),
            i <= n,
            forall|j: int| 0 <= j < i ==> s@[j] != '-',
        decreases n - i,
    {
        if s.get_char(i) == '-' {
            return true;
        }
        i = i + 1;
    }
    false
}

/// How many phrases are drawn at most in search of one without hyphenated
/// words.
pub const KEY_DRAWS: usize = 8;

/// A fresh room key: three random words of lowercase letters joined by
/// hyphens, so that it splits at its hyphens into exactly three parts. Phrases
/// are drawn from the word list until one has no hyphenated word, at most
/// `KEY_DRAWS` times; should every draw hold one, the hyphens inside the last
/// phrase's words are dropped.
pub fn gen_room_key() -> (key: String)
    ensures
        is_room_key(key@, 3),
{
    let mut phrase = random_phrase(3);
    let mut draws: usize = 1;
    while draws < KEY_DRAWS && has_hyphen(phrase.as_str())
        invariant
            is_key_phrase(phrase@, 3, ' '),
            1 <= draws <= KEY_DRAWS,
        decreases KEY_DRAWS - draws,
    {
        phrase = random_phrase(3);
        draws = draws + 1;
    }
    let key = room_key_from_phrase(phrase.as_str());
    proof {
        let words = choose|words: Seq<Seq<char>>|
            words.len() == 3 && (forall|i: int| 0 <= i < words.len() ==> is_key_word(#[trigger] words[i]))
                && phrase@ == join_words(words, ' ');
        lemma_room_key_of_join(words);
        let keys = words.map_values(|w: Seq<char>| room_key_of(w));
        assert forall|i: int| 0 <= i < keys.len() implies is_plain_word(#[trigger] keys[i]) by {
            lemma_room_key_of_word(words[i]);
        }
    }
    key
}

/// The address text of the relay to use: the given one, or the public
/// relay's.
pub open spec fn relay_addr_or_default_spec(addr: Option<&str>) -> Seq<char> {
    match addr {
        Some(a) => a@,
        None => "139.177.178.244:8004"@,
    }
}

/// The relay to use: the given address text, or the public relay's.
pub fn relay_addr_or_default(addr: Option<&str>) -> (chosen: &str)
    ensures
        chosen@ == relay_addr_or_default_spec(addr),
        addr matches Some(a) ==> chosen@ == a@,
        addr is None ==> chosen@ == "139.177.178.244:8004"@,
{
    match addr {
        Some(a) => a,
        None => "139.177.178.244:8004",
    }
}

/// A relay address that is given is the one used, whatever it is; only when
/// none is given is the public relay used.
pub proof fn lemma_given_relay_is_used(addr: Option<&str>)
    ensures
        addr matches Some(a) ==> relay_addr_or_default_spec(addr) == a@,
        addr is None ==> relay_addr_or_default_spec(addr) == "139.177.178.244:8004"@,
{
}

/// What `std::path::Path::file_name` gives for a path, as a string.
pub uninterp spec fn path_file_name(path: Seq<char>) -> Option<Seq<char>>;

/// Calls `std::path::Path::file_name` on `path` and turns the name back into
/// a string; the name of a path given as a string is valid UTF-8. The name is
/// the path's final component, so it is non-empty and holds no `/`; there is
/// none when the path ends in `..` or is a root.
#[verifier::external_body]
fn file_name(path: &str) -> (name: Option<String>)
    ensures
        match name {
            Some(n) => path_file_name(path@) == Some(n@) && n@.len() > 0 && !n@.contains('/'),
            None => path_file_name(path@) is None,
        },
{
    match std::path::Path::new(path).file_name() {
        Some(n) => n.to_str().map(String::from),
        None => None,
    }
}

/// Why a path given for sending was refused.
#[derive(Debug, Clone, Copy, PartialEq, Eq)]
pub enum FilepathError {
    /// The path does not name a regular file.
    NotAFile,
    /// The path has no final component to use as the file's name.
    NoFileName,
}

/// The name under which the file at `filepath` is announced: the path's
/// final component. The path must name a regular file (`is_file`) and have a
/// final component.
pub fn validate_filepath(filepath: &str, is_file: bool) -> (name: String)
    requires
        is_file,
        path_file_name(filepath@) is Some,
    ensures
        name@ == path_file_name(filepath@).unwrap(),
{
    match file_name(filepath) {
        Some(n) => n,
        None => String::new(),
    }
}

/// `validate_filepath` where its conditions hold, and otherwise the condition
/// that fails: first whether the path names a regular file, then whether it
/// has a final component.
pub fn try_validate_filepath(filepath: &str, is_file: bool) -> (r: Result<String, FilepathError>)
    ensures
        !is_file ==> r == Err::<String, FilepathError>(FilepathError::NotAFile),
        is_file ==> match path_file_name(filepath@) {
            Some(n) => r matches Ok(name) && name@ == n,
            None => r == Err::<String, FilepathError>(FilepathError::NoFileName),
        },
{
    if !is_file {
        return Err(FilepathError::NotAFile);
    }
    match file_name(filepath) {
        Some(_) => Ok(validate_filepath(filepath, is_file)),
        None => Err(FilepathError::NoFileName),
    }
}

/// The decimal digits of `n`, most significant first.
pub open spec fn decimal(n: nat) -> Seq<char>
    decreases n,
{
    if n < 10 {
        seq![(n + 48) as char]
    } else {
        decimal(n / 10).push(((n % 10) + 48) as char)
    }
}

/// The prefix letter of the `e`-th power of the unit (1 for kilo up to 6 for
/// exa): "KMGTPE", or "kMGTPE" with SI prefixes.
pub open spec fn unit_prefix(si_prefix: bool, e: nat) -> char {
    if si_prefix {
        seq!['k', 'M', 'G', 'T', 'P', 'E'][e - 1]
    } else {
        seq!['K', 'M', 'G', 'T', 'P', 'E'][e - 1]
    }
}

/// The text after the prefix letter: "B", or "iB" with SI prefixes.
pub open spec fn unit_suffix(si_prefix: bool) -> Seq<char> {
    if si_prefix {
        seq!['i', 'B']
    } else {
        seq!['B']
    }
}

/// The `e`-th power of the unit: 1000, or 1024 with SI prefixes.
pub open spec fn unit_power(si_prefix: bool, e: nat) -> int {
    vstd::arithmetic::power::pow(if si_prefix { 1024 } else { 1000 }, e)
}

/// The text of `whole`.`tenth` followed by the prefix of the `e`-th power of
/// the unit: how a scaled byte count is written.
pub open spec fn scaled_form(whole: nat, tenth: nat, e: nat, si_prefix: bool) -> Seq<char> {
    decimal(whole) + seq!['.'] + decimal(tenth) + seq![' ', unit_prefix(si_prefix, e)] + unit_suffix(si_prefix)
}

/// `text` writes `bytes` scaled by a power of the unit: a number with one
/// decimal, a space, the power's prefix letter and the suffix, where the
/// number is within a tenth of `bytes` divided by that power.
pub open spec fn is_scaled_size(text: Seq<char>, bytes: u64, si_prefix: bool) -> bool {
    exists|whole: nat, tenth: nat, e: nat|
        #![trigger scaled_form(whole, tenth, e, si_prefix)]
        1 <= e <= 6 && tenth < 10 && text == scaled_form(whole, tenth, e, si_prefix) && -unit_power(
            si_prefix,
            e,
        ) <= (10 * whole + tenth) * unit_power(si_prefix, e) - 10 * bytes <= unit_power(si_prefix, e)
}

/// `text` writes `bytes` scaled by a power `e` of a thousand as
/// `is_scaled_size` says, where the power fits the count: `bytes` divided by
/// `1000^e` is at least 1 and below 1200.
pub open spec fn is_decimal_scaled_size(text: Seq<char>, bytes: u64) -> bool {
    exists|whole: nat, tenth: nat, e: nat|
        #![trigger scaled_form(whole, tenth, e, false)]
        1 <= e <= 6 && tenth < 10 && text == scaled_form(whole, tenth, e, false) && -unit_power(false, e)
            <= (10 * whole + tenth) * unit_power(false, e) - 10 * bytes <= unit_power(false, e)
            && unit_power(false, e) <= bytes < 1200 * unit_power(false, e)
}

/// `shown` is how a size of `bytes` bytes is written for people: below a
/// thousand bytes, the number in decimal followed by " B"; from a thousand on,
/// the count scaled by a fitting power of a thousand
/// (`is_decimal_scaled_size`).
pub open spec fn shows_size(shown: Seq<char>, bytes: u64) -> bool {
    if bytes < 1000 {
        shown == decimal(bytes as nat) + seq![' ', 'B']
    } else {
        is_decimal_scaled_size(shown, bytes)
    }
}

/// A size of a thousand bytes or more is shown as a number between 0.9 and
/// 1200 of the power of a thousand that its prefix names, a power no greater
/// than the size: a 4 GB file cannot be shown in exabytes.
pub proof fn lemma_shown_size_fits(shown: Seq<char>, bytes: u64)
    requires
        shows_size(shown, bytes),
        bytes >= 1000,
    ensures
        exists|whole: nat, tenth: nat, e: nat|
            #![trigger scaled_form(whole, tenth, e, false)]
            1 <= e <= 6 && tenth < 10 && shown == scaled_form(whole, tenth, e, false) && 9 <= 10 * whole
                + tenth <= 12000 && unit_power(false, e) <= bytes,
{
    let (whole, tenth, e) = choose|whole: nat, tenth: nat, e: nat|
        #![trigger scaled_form(whole, tenth, e, false)]
        1 <= e <= 6 && tenth < 10 && shown == scaled_form(whole, tenth, e, false) && -unit_power(false, e)
            <= (10 * whole + tenth) * unit_power(false, e) - 10 * bytes <= unit_power(false, e)
            && unit_power(false, e) <= bytes < 1200 * unit_power(false, e);
    let u = unit_power(false, e);
    let n = 10 * whole + tenth;
    vstd::arithmetic::power::lemma_pow_positive(1000, e);
    assert(9 <= n <= 12000) by (nonlinear_arith)
        requires
            u > 0,
            -u <= n * u - 10 * bytes <= u,
            u <= bytes < 1200 * u,
    {
        assert(n * u >= 9 * u);
        assert(n * u < 12001 * u);
    }
    assert(scaled_form(whole, tenth, e, false) == shown);
}

/// Calls `bytesize::to_string`, which writes a byte count for people to read.
/// Below one unit (1000 bytes, or 1024 with `si_prefix`) it writes the number
/// in decimal followed by " B". From one unit on it picks a power `e` of the
/// unit between 1 and 6 and writes the count divided by that power in floating
/// point with one decimal (`{:.1}`), a space, the power's prefix letter and
/// "B" ("iB" with `si_prefix`); the number is rounded to a twentieth of the
/// power and the division is exact to far less, so it is within a tenth. The
/// power comes from a floating-point logarithm, whose precision std leaves
/// unspecified, so which power is picked near a boundary is left unsaid.
/// Without SI prefixes the power is the floor of the count's logarithm to base
/// 1024 (`LN_KB`), at least 1, while the unit is 1000: the count divided by
/// `1000^e` then lies between 1 and 1024 * 1.024^6, below 1200, and stays in
/// that range for any logarithm within 0.3 percent of the true one, so the
/// contract says so. (So a million bytes is written "1000.0 KB".)
#[verifier::external_body]
fn human_size(bytes: u64, si_prefix: bool) -> (text: String)
    ensures
        bytes < (if si_prefix { 1024u64 } else { 1000u64 }) ==> text@ == decimal(bytes as nat) + seq![' ', 'B'],
        bytes >= (if si_prefix { 1024u64 } else { 1000u64 }) ==> is_scaled_size(text@, bytes, si_prefix),
        !si_prefix && bytes >= 1000 ==> is_decimal_scaled_size(text@, bytes),
{
    bytesize::to_string(bytes, si_prefix)
}

/// The question put to the receiver, with the size written as `shown`.
pub open spec fn prompt_text(filename: Seq<char>, shown: Seq<char>) -> Seq<char> {
    "Accept "@ + filename + " ("@ + shown + ")?"@
}

/// What the sender is shown once its room is open, with the size written as
/// `shown`.
pub open spec fn help_text(filename: Seq<char>, shown: Seq<char>, code: Seq<char>) -> Seq<char> {
    "Sending '"@ + filename + "' ("@ + shown + ")\nCode is: "@ + code + "\nIn the other computer run\n\nsstp get "@
        + code + "\n\n"@
}

/// `prompt` is the question for `filename` of `size` bytes, with the size
/// written in some way that `shows_size` allows.
pub open spec fn is_prompt_for(prompt: Seq<char>, filename: Seq<char>, size: u64) -> bool {
    exists|shown: Seq<char>| shows_size(shown, size) && prompt == #[trigger] prompt_text(filename, shown)
}

/// `text` is the help for `filename` of `size` bytes under `code`, with the
/// size written in some way that `shows_size` allows.
pub open spec fn is_help_for(text: Seq<char>, filename: Seq<char>, size: u64, code: Seq<char>) -> bool {
    exists|shown: Seq<char>| shows_size(shown, size) && text == #[trigger] help_text(filename, shown, code)
}

/// The question put to the receiver before a file is accepted, with the size
/// written as `shown`.
pub fn approval_prompt_with(filename: &str, shown: &str) -> (prompt: String)
    ensures
        prompt@ == prompt_text(filename@, shown@),
{
    let mut prompt = String::from_str("Accept ");
    prompt.append(filename);
    prompt.append(" (");
    prompt.append(shown);
    prompt.append(")?");
    prompt
}

/// The question put to the receiver before a file is accepted, with the size
/// written by `bytesize`.
pub fn approval_prompt(filename: &str, size: u64) -> (prompt: String)
    ensures
        is_prompt_for(prompt@, filename@, size),
{
    let shown = human_size(size, false);
    let prompt = approval_prompt_with(filename, shown.as_str());
    assert(shows_size(shown@, size));
    prompt
}

/// What the sender is shown once its room is open: the file, its size written
/// as `shown`, the room code, and the command to run on the receiving side.
pub fn send_help_text_with(filename: &str, shown: &str, code: &str) -> (text: String)
    ensures
        text@ == help_text(filename@, shown@, code@),
{
    let mut text = String::from_str("Sending '");
    text.append(filename);
    text.append("' (");
    text.append(shown);
    text.append(")\nCode is: ");
    text.append(code);
    text.append("\nIn the other computer run\n\nsstp get ");
    text.append(code);
    text.append("\n\n");
    text
}

/// What the sender is shown once its room is open, with the size written by
/// `bytesize`.
pub fn send_help_text(filename: &str, size: u64, code: &str) -> (text: String)
    ensures
        is_help_for(text@, filename@, size, code@),
{
    let shown = human_size(size, false);
    let text = send_help_text_with(filename, shown.as_str(), code);
    assert(shows_size(shown@, size));
    text
}

} // verus!
