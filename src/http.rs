//! Requests: their shape, and how they are read from the text of one connection.
use vstd::prelude::*;
use crate::strmap::{assoc_all, Pairs, StringMap};
use crate::text::{
    chars_eq, chars_of, lemma_split_from_nonempty, occurs_at, occurs_at_exec, slice_chars, split, split_exec, string_of, trim, trim_exec,
    views,
};

verus! {

/// The line separator.
pub open spec fn crlf() -> Seq<char> {
    seq!['\r', '\n']
}

/// The separator between the head and the body of a request.
pub open spec fn blank_line() -> Seq<char> {
    seq!['\r', '\n', '\r', '\n']
}

/// Is `t` one of the verbs GET, POST, PUT, PATCH, DELETE, OPTIONS?
pub open spec fn is_verb(t: Seq<char>) -> bool {
    t == seq!['G', 'E', 'T'] || t == seq!['P', 'O', 'S', 'T'] || t == seq!['P', 'U', 'T'] || t
        == seq!['P', 'A', 'T', 'C', 'H'] || t == seq!['D', 'E', 'L', 'E', 'T', 'E'] || t
        == seq!['O', 'P', 'T', 'I', 'O', 'N', 'S']
}

/// Does `t` start with `/`?
pub open spec fn is_path(t: Seq<char>) -> bool {
    t.len() > 0 && t[0] == '/'
}

/// The first token that is a verb (`verb`) or a path (`!verb`); empty if none is.
pub open spec fn first_token(toks: Seq<Seq<char>>, verb: bool) -> Seq<char>
    decreases toks.len(),
{
    if toks.len() == 0 {
        Seq::empty()
    } else if (verb && is_verb(toks[0])) || (!verb && is_path(toks[0])) {
        toks[0]
    } else {
        first_token(toks.drop_first(), verb)
    }
}

/// The words of the first line of `s`.
pub open spec fn request_line_tokens(s: Seq<char>) -> Seq<Seq<char>> {
    split(split(s, crlf())[0], seq![' '])
}

/// The verb of the request text `s`.
pub open spec fn request_verb(s: Seq<char>) -> Seq<char> {
    first_token(request_line_tokens(s), true)
}

/// The path of the request text `s`.
pub open spec fn request_path(s: Seq<char>) -> Seq<char> {
    first_token(request_line_tokens(s), false)
}

/// The first position at or after `from` where `c` stands in `s`, or -1.
pub open spec fn index_of(s: Seq<char>, c: char, from: int) -> int
    decreases s.len() - from,
{
    if from < 0 || from >= s.len() {
        -1
    } else if s[from] == c {
        from
    } else {
        index_of(s, c, from + 1)
    }
}

/// The header that the line `l` gives: the trimmed text before the first `:`,
/// and the trimmed text after it (empty where there is no `:`).
pub open spec fn header_pair(l: Seq<char>) -> (Seq<char>, Seq<char>) {
    let i = index_of(l, ':', 0);
    if i < 0 {
        (trim(l), Seq::empty())
    } else {
        (trim(l.take(i)), trim(l.skip(i + 1)))
    }
}

/// The first line at or after `i` that is empty, or the number of lines.
pub open spec fn first_blank_from(lines: Seq<Seq<char>>, i: int) -> int
    decreases lines.len() - i,
{
    if i >= lines.len() {
        lines.len() as int
    } else if lines[i].len() == 0 {
        i
    } else {
        first_blank_from(lines, i + 1)
    }
}

/// The headers given by the lines after the first, up to the first empty one.
pub open spec fn header_pairs(lines: Seq<Seq<char>>) -> Pairs {
    lines.subrange(1, first_blank_from(lines, 1)).map_values(|l: Seq<char>| header_pair(l))
}

/// The headers of the request text `s`, the last of equal names winning.
pub open spec fn request_headers(s: Seq<char>) -> Pairs {
    assoc_all(Seq::empty(), header_pairs(split(s, crlf())))
}

/// The body of the request text `s`: everything after the first blank line,
/// verbatim, if there is one.
pub open spec fn request_body(s: Seq<char>) -> Option<Seq<char>> {
    let k = first_occurrence_from(s, blank_line(), 0);
    if k >= 0 {
        Some(s.skip(k + blank_line().len()))
    } else {
        None
    }
}

/// The first position at or after `i` where `sep` occurs in `s`, or -1.
pub open spec fn first_occurrence_from(s: Seq<char>, sep: Seq<char>, i: int) -> int
    decreases s.len() - i,
{
    if i < 0 || i >= s.len() || i + sep.len() > s.len() {
        -1
    } else if occurs_at(s, i, sep) {
        i
    } else {
        first_occurrence_from(s, sep, i + 1)
    }
}

/// A request, as read from a connection and completed by route resolution.
pub struct Request {
    pub verb: String,
    pub path: String,
    pub root_dir: Option<String>,
    pub body: Option<String>,
    pub path_vars: StringMap,
    pub headers: StringMap,
}

impl Request {
    /// Its maps have unique keys.
    pub open spec fn wf(&self) -> bool {
        self.path_vars.wf() && self.headers.wf()
    }

    /// The route of the request: its verb, a space, and its path.
    pub fn route(&mut self) -> (r: String)
        ensures
            *final(self) == *old(self),
            r@ == old(self).verb@ + seq![' '] + old(self).path@,
    {
        let mut cs = chars_of(self.verb.as_str());
        cs.push(' ');
        let p = chars_of(self.path.as_str());
        let mut i: usize = 0;
        let ghost start = cs@;
        while i < p.len()
            invariant
                i <= p.len(),
                cs@ == start + p@.take(i as int),
            decreases p.len() - i,
        {
            cs.push(p[i]);
            i = i + 1;
            assert(cs@ =~= start + p@.take(i as int));
        }
        assert(p@.take(i as int) =~= p@);
        string_of(&cs)
    }

    /// Sets the directory that file routes read from and write to.
    pub fn add_root_dir(&mut self, path: Option<String>)
        ensures
            final(self).root_dir == path,
            final(self).verb == old(self).verb,
            final(self).path == old(self).path,
            final(self).body == old(self).body,
            final(self).path_vars == old(self).path_vars,
            final(self).headers == old(self).headers,
    {
        self.root_dir = path;
    }
}

/// The separator vectors.
fn crlf_exec() -> (r: Vec<char>)
    ensures
        r@ == crlf(),
{
    let r = vec!['\r', '\n'];
    assert(r@ =~= crlf());
    r
}

fn blank_line_exec() -> (r: Vec<char>)
    ensures
        r@ == blank_line(),
{
    let r = vec!['\r', '\n', '\r', '\n'];
    assert(r@ =~= blank_line());
    r
}

/// Whether `t` is one of the verbs.
fn is_verb_exec(t: &Vec<char>) -> (r: bool)
    ensures
        r == is_verb(t@),
{
    let get = vec!['G', 'E', 'T'];
    let post = vec!['P', 'O', 'S', 'T'];
    let put = vec!['P', 'U', 'T'];
    let patch = vec!['P', 'A', 'T', 'C', 'H'];
    let delete = vec!['D', 'E', 'L', 'E', 'T', 'E'];
    let options = vec!['O', 'P', 'T', 'I', 'O', 'N', 'S'];
    assert(get@ =~= seq!['G', 'E', 'T']);
    assert(post@ =~= seq!['P', 'O', 'S', 'T']);
    assert(put@ =~= seq!['P', 'U', 'T']);
    assert(patch@ =~= seq!['P', 'A', 'T', 'C', 'H']);
    assert(delete@ =~= seq!['D', 'E', 'L', 'E', 'T', 'E']);
    assert(options@ =~= seq!['O', 'P', 'T', 'I', 'O', 'N', 'S']);
    chars_eq(t, &get) || chars_eq(t, &post) || chars_eq(t, &put) || chars_eq(t, &patch)
        || chars_eq(t, &delete) || chars_eq(t, &options)
}

/// The lines of the request text `s`.
fn request_lines(s: &Vec<char>) -> (r: Vec<Vec<char>>)
    ensures
        views(r@) == split(s@, crlf()),
        r.len() >= 1,
{
    proof {
        lemma_split_from_nonempty(Seq::empty(), s@, crlf());
    }
    let sep = crlf_exec();
    let r = split_exec(s, &sep);
    assert(views(r@).len() == r.len());
    r
}

/// The first word of the request line that is a verb (`verb`) or a path (`!verb`).
pub fn extract_from_request(req_str: &String, verb: bool) -> (r: String)
    ensures
        r@ == first_token(request_line_tokens(req_str@), verb),
{
    let s = chars_of(req_str.as_str());
    let lines = request_lines(&s);
    assert(lines@[0]@ == split(s@, crlf())[0]);
    let sp = vec![' '];
    assert(sp@ =~= seq![' ']);
    let toks = split_exec(&lines[0], &sp);
    let ghost all = views(toks@);
    assert(all == request_line_tokens(req_str@));
    let mut i: usize = 0;
    assert(all.skip(0) =~= all);
    while i < toks.len()
        invariant
            i <= toks.len(),
            all == views(toks@),
            all == request_line_tokens(req_str@),
            first_token(all, verb) == first_token(all.skip(i as int), verb),
        decreases toks.len() - i,
    {
        assert(all.skip(i as int).drop_first() =~= all.skip(i + 1));
        let t = &toks[i];
        let hit = if verb {
            is_verb_exec(t)
        } else {
            t.len() > 0 && t[0] == '/'
        };
        assert(all.skip(i as int)[0] == t@);
        assert(hit == ((verb && is_verb(t@)) || (!verb && is_path(t@))));
        if hit {
            return string_of(t);
        }
        i = i + 1;
    }
    let e: Vec<char> = Vec::new();
    string_of(&e)
}

/// The verb of the request text, or the empty string.
pub fn extract_request_verb(req_str: String) -> (r: String)
    ensures
        r@ == request_verb(req_str@),
{
    extract_from_request(&req_str, true)
}

/// The path of the request text, or the empty string.
pub fn extract_request_path(req_str: String) -> (r: String)
    ensures
        r@ == request_path(req_str@),
{
    extract_from_request(&req_str, false)
}

/// The header that one line gives.
fn header_of_line(l: &Vec<char>) -> (r: (String, String))
    ensures
        (r.0@, r.1@) == header_pair(l@),
{
    let mut i: usize = 0;
    while i < l.len() && l[i] != ':'
        invariant
            i <= l.len(),
            index_of(l@, ':', 0) == index_of(l@, ':', i as int),
        decreases l.len() - i,
    {
        i = i + 1;
    }
    if i == l.len() {
        let k = trim_exec(l);
        let e: Vec<char> = Vec::new();
        (string_of(&k), string_of(&e))
    } else {
        let mut key: Vec<char> = Vec::new();
        let mut j: usize = 0;
        while j < i
            invariant
                j <= i < l.len(),
                key@ == l@.take(j as int),
            decreases i - j,
        {
            key.push(l[j]);
            j = j + 1;
            assert(key@ =~= l@.take(j as int));
        }
        let mut val: Vec<char> = Vec::new();
        j = i + 1;
        while j < l.len()
            invariant
                i < j <= l.len(),
                val@ == l@.subrange(i + 1, j as int),
            decreases l.len() - j,
        {
            val.push(l[j]);
            j = j + 1;
            assert(val@ =~= l@.subrange(i + 1, j as int));
        }
        assert(val@ =~= l@.skip(i + 1));
        let k = trim_exec(&key);
        let v = trim_exec(&val);
        (string_of(&k), string_of(&v))
    }
}

/// The headers of the request text: every line after the first, up to the
/// first empty line, split at its first `:`; the last of equal names wins.
pub fn extract_headers_from_request(req_str: String) -> (r: StringMap)
    ensures
        r.wf(),
        r@ == request_headers(req_str@),
{
    let s = chars_of(req_str.as_str());
    let lines = request_lines(&s);
    let ghost ls = views(lines@);
    let mut headers = StringMap::new();
    let mut i: usize = 1;
    let ghost end = first_blank_from(ls, 1);
    assert(ls.subrange(1, 1).map_values(|l: Seq<char>| header_pair(l)) =~= Seq::<(Seq<char>, Seq<char>)>::empty());
    while i < lines.len() && lines[i].len() != 0
        invariant
            1 <= i <= lines.len(),
            ls == views(lines@),
            end == first_blank_from(ls, 1),
            end == first_blank_from(ls, i as int),
            headers.wf(),
            headers@ == assoc_all(Seq::empty(), ls.subrange(1, i as int).map_values(|l: Seq<char>| header_pair(l))),
        decreases lines.len() - i,
    {
        let (k, v) = header_of_line(&lines[i]);
        let ghost prev = ls.subrange(1, i as int).map_values(|l: Seq<char>| header_pair(l));
        let ghost next = ls.subrange(1, i + 1).map_values(|l: Seq<char>| header_pair(l));
        assert(next.drop_last() =~= prev);
        assert(next.last() == header_pair(ls[i as int]));
        headers.insert(k, v);
        i = i + 1;
    }
    assert(end == i);
    headers
}

/// The body of the request text: everything after the first blank line,
/// verbatim, if there is one.
pub fn extract_body_from_request(req_str: String) -> (r: Option<String>)
    ensures
        match r {
            Some(b) => request_body(req_str@) == Some(b@),
            None => request_body(req_str@) is None,
        },
{
    let s = chars_of(req_str.as_str());
    let sep = blank_line_exec();
    let mut i: usize = 0;
    while i < s.len() && sep.len() <= s.len() - i
        invariant
            sep@ == blank_line(),
            s@ == req_str@,
            i <= s.len(),
            first_occurrence_from(s@, sep@, 0) == first_occurrence_from(s@, sep@, i as int),
        decreases s.len() - i,
    {
        if occurs_at_exec(&s, i, &sep) {
            let b = slice_chars(&s, i + sep.len(), s.len());
            assert(b@ =~= s@.skip(i + sep.len()));
            assert(first_occurrence_from(s@, sep@, i as int) == i);
            return Some(string_of(&b));
        }
        i = i + 1;
    }
    None
}

/// Reads a request from the text of one connection. Nothing is rejected: a
/// missing verb or path is left empty.
pub fn create_request(req_str: String) -> (r: Request)
    ensures
        r.wf(),
        r.verb@ == request_verb(req_str@),
        r.path@ == request_path(req_str@),
        r.headers@ == request_headers(req_str@),
        r.body matches Some(b) ==> request_body(req_str@) == Some(b@),
        r.body is None ==> request_body(req_str@) is None,
        r.root_dir is None,
        r.path_vars@ == Seq::<(Seq<char>, Seq<char>)>::empty(),
{
    let verb = extract_request_verb(req_str.clone());
    let path = extract_request_path(req_str.clone());
    let headers = extract_headers_from_request(req_str.clone());
    let body = extract_body_from_request(req_str);
    Request { verb, path, headers, body, root_dir: None, path_vars: StringMap::new() }
}

} // verus!
