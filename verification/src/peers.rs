//! Peers of the control plane: how they are named on the command line and by DNS, and the
//! types of the messages between them.

use vstd::prelude::*;
use crate::ordered::views;
use crate::text::{
    chars_of, find_in, found, is_space, lemma_found_from, push_text, space, str_eq, text_of, trimmed_start,
};

verus! {

// ---------------------------------------------------------------------------
// Message types
// ---------------------------------------------------------------------------

/// A text in which every place of a part, from the left, is replaced by another text.
pub open spec fn replaced(s: Seq<char>, part: Seq<char>, by: Seq<char>) -> Seq<char>
    decreases s.len(),
{
    match found(s, part) {
        None => s,
        Some(i) => if part.len() == 0 {
            s
        } else {
            proof {
                lemma_found_from(s, part, 0);
            }
            s.take(i) + by + replaced(s.skip(i + part.len()), part, by)
        },
    }
}

fn replace_in(chars: &Vec<char>, part: &str, by: &str) -> (r: String)
    requires
        part@.len() > 0,
    ensures
        r@ == replaced(chars@, part@, by@),
{
    let part_len: usize = chars_of(part).len();
    let mut out = String::new();
    let mut at: usize = 0;
    assert(out@ =~= Seq::<char>::empty());
    assert(chars@.skip(0) =~= chars@);
    assert(Seq::<char>::empty() + replaced(chars@, part@, by@) =~= replaced(chars@, part@, by@));
    loop
        invariant
            at <= chars.len(),
            part_len == part@.len(),
            part_len > 0,
            replaced(chars@, part@, by@) == out@ + replaced(chars@.skip(at as int), part@, by@),
        decreases chars.len() - at,
    {
        let ghost rest = chars@.skip(at as int);
        assert(chars@.subrange(at as int, chars@.len() as int) =~= rest);
        proof {
            lemma_found_from(rest, part@, 0);
        }
        match find_in(chars, at, chars.len(), part) {
            None => {
                let tail = text_of(chars, at, chars.len());
                push_text(&mut out, tail.as_str());
                return out;
            },
            Some(i) => {
                let head = text_of(chars, at, i);
                let ghost sofar = out@;
                push_text(&mut out, head.as_str());
                push_text(&mut out, by);
                proof {
                    assert(head@ =~= rest.take(i - at));
                    assert(rest.skip(i - at + part@.len()) =~= chars@.skip(i + part@.len()));
                    let tail = replaced(chars@.skip(i + part@.len()), part@, by@);
                    assert(sofar + (head@ + by@ + tail) =~= out@ + tail);
                }
                at = i + part_len;
            },
        }
    }
}

/// Whether a text ends with another one.
pub open spec fn ends_with(s: Seq<char>, end: Seq<char>) -> bool {
    end.len() <= s.len() && s.skip(s.len() - end.len()) == end
}

/// The type of the response to a request.
pub open spec fn response_type(request: Seq<char>) -> Seq<char> {
    if ends_with(request, "Request"@) {
        replaced(request, "Request"@, "Response"@)
    } else {
        request + "Response"@
    }
}

/// The type of the response to a request.
pub fn response_type_for(request_type: &str) -> (r: String)
    ensures
        r@ == response_type(request_type@),
{
    proof {
        reveal_strlit("Request");
    }
    let chars = chars_of(request_type);
    if chars.len() >= 7 {
        let end = text_of(&chars, chars.len() - 7, chars.len());
        assert(end@ =~= request_type@.skip(request_type@.len() - 7));
        if str_eq(end.as_str(), "Request") {
            return replace_in(&chars, "Request", "Response");
        }
    }
    let mut out = request_type.to_owned();
    push_text(&mut out, "Response");
    out
}

// ---------------------------------------------------------------------------
// Peers
// ---------------------------------------------------------------------------

/// The two texts around the first of a separator.
pub open spec fn split_at(s: Seq<char>, separator: Seq<char>) -> Option<(Seq<char>, Seq<char>)> {
    match found(s, separator) {
        Some(i) => Some((s.take(i), s.skip(i + separator.len()))),
        None => None,
    }
}

/// The name and the address of a peer that is given as `name@address`.
pub fn split_peer_spec(spec_text: &str) -> (r: Option<(String, String)>)
    ensures
        match (r, split_at(spec_text@, "@"@)) {
            (Some((name, address)), Some((a, b))) => name@ == a && address@ == b,
            (None, None) => true,
            _ => false,
        },
{
    let chars = chars_of(spec_text);
    proof {
        reveal_strlit("@");
        lemma_found_from(chars@, "@"@, 0);
        assert(chars@.subrange(0, chars@.len() as int) =~= chars@);
    }
    match find_in(&chars, 0, chars.len(), "@") {
        None => None,
        Some(i) => {
            let name = text_of(&chars, 0, i);
            let address = text_of(&chars, i + 1, chars.len());
            assert(name@ =~= chars@.take(i as int));
            assert(address@ =~= chars@.skip(i + 1));
            Some((name, address))
        },
    }
}

/// The number of characters before the first white space.
pub open spec fn word_len(s: Seq<char>) -> nat
    decreases s.len(),
{
    if s.len() == 0 || is_space(s[0]) {
        0
    } else {
        1 + word_len(s.skip(1))
    }
}

/// A word is no longer than the text, and at least one character where one is there.
pub proof fn lemma_word_len(s: Seq<char>)
    ensures
        word_len(s) <= s.len(),
        s.len() > 0 && !is_space(s[0]) ==> word_len(s) > 0,
    decreases s.len(),
{
    if s.len() > 0 && !is_space(s[0]) {
        lemma_word_len(s.skip(1));
    }
}

/// A text is no longer without the white space in front of it.
pub proof fn lemma_trimmed_start(s: Seq<char>)
    ensures
        trimmed_start(s).len() <= s.len(),
        trimmed_start(s).len() > 0 ==> !is_space(trimmed_start(s)[0]),
    decreases s.len(),
{
    if s.len() > 0 && is_space(s[0]) {
        lemma_trimmed_start(s.skip(1));
    }
}

/// The words of a text, which white space separates.
pub open spec fn words(s: Seq<char>) -> Seq<Seq<char>>
    decreases s.len(),
{
    let t = trimmed_start(s);
    if t.len() == 0 {
        Seq::empty()
    } else {
        proof {
            lemma_trimmed_start(s);
            lemma_word_len(t);
        }
        seq![t.take(word_len(t) as int)] + words(t.skip(word_len(t) as int))
    }
}

fn split_words(text: &str) -> (r: Vec<String>)
    ensures
        views(r@) == words(text@),
{
    let chars = chars_of(text);
    let mut out: Vec<String> = Vec::new();
    let mut at: usize = 0;
    assert(chars@.skip(0) =~= chars@);
    assert(views(out@) + words(chars@) =~= words(chars@));
    loop
        invariant
            at <= chars.len(),
            chars@ == text@,
            words(text@) == views(out@) + words(chars@.skip(at as int)),
        decreases chars.len() - at,
    {
        let ghost rest = chars@.skip(at as int);
        let mut start: usize = at;
        while start < chars.len() && space(chars[start])
            invariant
                at <= start <= chars.len(),
                rest == chars@.skip(at as int),
                trimmed_start(rest) == trimmed_start(chars@.skip(start as int)),
            decreases chars.len() - start,
        {
            assert(chars@.skip(start as int).skip(1) =~= chars@.skip(start + 1));
            start += 1;
        }
        let ghost t = chars@.skip(start as int);
        assert(trimmed_start(rest) == t);
        if start == chars.len() {
            assert(views(out@) + Seq::<Seq<char>>::empty() =~= views(out@));
            return out;
        }
        let mut end: usize = start;
        while end < chars.len() && !space(chars[end])
            invariant
                start <= end <= chars.len(),
                t == chars@.skip(start as int),
                word_len(t) == end - start + word_len(chars@.skip(end as int)),
            decreases chars.len() - end,
        {
            assert(chars@.skip(end as int).skip(1) =~= chars@.skip(end + 1));
            end += 1;
        }
        proof {
            lemma_word_len(t);
            assert(word_len(t) == end - start);
        }
        let word = text_of(&chars, start, end);
        let ghost before = out@;
        proof {
            assert(word@ =~= t.take(end - start));
            assert(t.skip(end - start) =~= chars@.skip(end as int));
        }
        out.push(word);
        proof {
            assert(views(out@) =~= views(before).push(word@));
            let tail = words(chars@.skip(end as int));
            assert(views(before) + (seq![word@] + tail) =~= views(out@) + tail);
        }
        at = end;
    }
}

/// A name without the dots behind it.
pub open spec fn without_dots(s: Seq<char>) -> Seq<char>
    decreases s.len(),
{
    if s.len() > 0 && s.last() == '.' {
        without_dots(s.drop_last())
    } else {
        s
    }
}

/// The peer and its address in a line of a DNS answer: priority, weight, port and host. The
/// peer is the first label of the host; the node itself is left out.
pub open spec fn srv_peer(line: Seq<char>, me: Seq<char>) -> Option<(Seq<char>, Seq<char>)> {
    let parts = words(line);
    if parts.len() < 4 {
        None
    } else {
        let host = without_dots(parts[3]);
        let peer = match found(host, "."@) {
            Some(i) => host.take(i),
            None => host,
        };
        if peer == me {
            None
        } else {
            Some((peer, host + ":"@ + parts[2]))
        }
    }
}

/// The peer and its address in a line of a DNS answer.
pub fn parse_srv_line(line: &str, me: &str) -> (r: Option<(String, String)>)
    ensures
        match (r, srv_peer(line@, me@)) {
            (Some((peer, address)), Some((a, b))) => peer@ == a && address@ == b,
            (None, None) => true,
            _ => false,
        },
{
    let parts = split_words(line);
    let ghost all = words(line@);
    if parts.len() < 4 {
        return None;
    }
    assert(all[2] == parts@[2]@ && all[3] == parts@[3]@);
    let chars = chars_of(parts[3].as_str());
    let mut end: usize = chars.len();
    assert(chars@.take(chars@.len() as int) =~= chars@);
    while end > 0 && chars[end - 1] == '.'
        invariant
            end <= chars.len(),
            without_dots(chars@) == without_dots(chars@.take(end as int)),
        decreases end,
    {
        assert(chars@.take(end as int).drop_last() =~= chars@.take(end - 1));
        end -= 1;
    }
    let mut host = text_of(&chars, 0, end);
    assert(host@ =~= chars@.take(end as int));
    let ghost name = host@;
    assert(chars@.subrange(0, end as int) =~= name);
    proof {
        reveal_strlit(".");
        lemma_found_from(name, "."@, 0);
    }
    let peer = match find_in(&chars, 0, end, ".") {
        Some(i) => {
            assert(chars@.subrange(0, i as int) =~= name.take(i as int));
            text_of(&chars, 0, i)
        },
        None => host.clone(),
    };
    if str_eq(peer.as_str(), me) {
        return None;
    }
    push_text(&mut host, ":");
    push_text(&mut host, parts[2].as_str());
    Some((peer, host))
}

// ---------------------------------------------------------------------------
// Laws
// ---------------------------------------------------------------------------

/// The response to a request whose name holds the word once is named like the request, with
/// the word replaced.
pub proof fn law_response_is_named_after_request(name: Seq<char>)
    requires
        found(name + "Request"@, "Request"@) == Some(name.len() as int),
    ensures
        response_type(name + "Request"@) == name + "Response"@,
{
    let (r, s) = ("Request"@, "Response"@);
    reveal_strlit("Request");
    let whole = name + r;
    assert(whole.skip(whole.len() - r.len()) =~= r);
    assert(whole.take(name.len() as int) =~= name);
    assert(whole.skip(name.len() as int + r.len()) =~= Seq::<char>::empty());
    assert(replaced(Seq::<char>::empty(), r, s) =~= Seq::<char>::empty()) by {
        lemma_found_from(Seq::<char>::empty(), r, 0);
    }
    assert(name + s + Seq::<char>::empty() =~= name + s);
}

/// A text is split at the first place where its separator stands.
pub proof fn law_splitting(s: Seq<char>, separator: Seq<char>)
    ensures
        split_at(s, separator) matches Some((a, b)) ==> s == a + separator + b && forall|k: int|
            0 <= k < a.len() ==> !#[trigger] crate::text::stands_in(s, separator, k),
        split_at(s, separator) is None ==> forall|k: int| 0 <= k ==> !#[trigger] crate::text::stands_in(s, separator, k),
{
    lemma_found_from(s, separator, 0);
    if let Some((a, b)) = split_at(s, separator) {
        assert(s =~= a + separator + b);
    }
}

/// Words are what blanks divide a text into.
pub proof fn law_words(word: Seq<char>, rest: Seq<char>)
    requires
        word.len() > 0,
        forall|i: int| 0 <= i < word.len() ==> !is_space(#[trigger] word[i]),
    ensures
        words(Seq::empty()).len() == 0,
        words(word) == seq![word],
        words(seq![' '] + rest) == words(rest),
        words(word + (seq![' '] + rest)) == seq![word] + words(rest),
{
    lemma_word(word, Seq::empty());
    assert(word + Seq::<char>::empty() =~= word);
    lemma_word(word, seq![' '] + rest);
    let blank = seq![' '] + rest;
    assert(blank.skip(1) =~= rest);
    assert(is_space(blank[0]));
    assert(trimmed_start(blank) == trimmed_start(rest));
    assert(words(blank) == words(rest));
    let whole = word + blank;
    assert(whole[0] == word[0]);
    assert(trimmed_start(whole) == whole);
    assert(whole.take(word.len() as int) =~= word);
    assert(whole.skip(word.len() as int) =~= blank);
    assert(trimmed_start(word) == word);
    assert(word.take(word.len() as int) =~= word);
    assert(word.skip(word.len() as int) =~= Seq::<char>::empty());
    assert(trimmed_start(Seq::<char>::empty()) == Seq::<char>::empty());
    assert(words(Seq::empty()) == Seq::<Seq<char>>::empty());
    assert(words(word) =~= seq![word]);
}

proof fn lemma_word(word: Seq<char>, rest: Seq<char>)
    requires
        forall|i: int| 0 <= i < word.len() ==> !is_space(#[trigger] word[i]),
        rest.len() == 0 || is_space(rest[0]),
    ensures
        word_len(word + rest) == word.len(),
    decreases word.len(),
{
    let whole = word + rest;
    if word.len() > 0 {
        let tail = word.skip(1);
        assert forall|i: int| 0 <= i < tail.len() implies !is_space(#[trigger] tail[i]) by {
            assert(tail[i] == word[i + 1]);
        }
        lemma_word(tail, rest);
        assert(whole.skip(1) =~= tail + rest);
        assert(whole[0] == word[0]);
    } else {
        assert(whole =~= rest);
    }
}

/// A line of a service record names a peer by its host without the dots at its end, up to the
/// first dot, and its address with the port in front of the host; a node is not its own peer.
pub proof fn law_service_records(line: Seq<char>, me: Seq<char>)
    ensures
        words(line).len() < 4 ==> srv_peer(line, me) is None,
        srv_peer(line, me) matches Some((peer, address)) ==> {
            &&& words(line).len() >= 4
            &&& peer != me
            &&& address == without_dots(words(line)[3]) + ":"@ + words(line)[2]
            &&& peer.is_prefix_of(without_dots(words(line)[3]))
        },
{
    if words(line).len() >= 4 {
        let host = without_dots(words(line)[3]);
        lemma_found_from(host, "."@, 0);
    }
}

/// Dots at the end are taken away, and nothing else.
pub proof fn law_dots(s: Seq<char>)
    ensures
        without_dots(s.push('.')) == without_dots(s),
        s.len() > 0 && s.last() != '.' ==> without_dots(s) == s,
        without_dots(s).is_prefix_of(s),
    decreases s.len(),
{
    assert(s.push('.').drop_last() =~= s);
    if s.len() > 0 && s.last() == '.' {
        law_dots(s.drop_last());
    }
}

} // verus!
