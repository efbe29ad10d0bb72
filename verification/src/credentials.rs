use vstd::prelude::*;

use crate::text::find_char_at;
use crate::text::find_char_from;
use crate::text::is_provided;
use crate::text::provided;
use crate::text::str_eq;
use crate::text::trim;
use crate::text::trim_spec;
use crate::text::unquote;
use crate::text::unquote_spec;

verus! {

/// `a`, unless it is absent, in which case `b`: the combinator behind
/// "first source providing a value wins".
pub open spec fn opt_or(a: Option<Seq<char>>, b: Option<Seq<char>>) -> Option<Seq<char>> {
    match a {
        Option::Some(v) => Option::Some(v),
        Option::None => b,
    }
}

/// First value paired with key `k` in `entries` at or after index `i`.
pub open spec fn entries_lookup_from(
    entries: Seq<(String, String)>,
    i: int,
    k: Seq<char>,
) -> Option<Seq<char>>
    decreases entries.len() - i,
{
    if !(0 <= i < entries.len()) {
        Option::None
    } else if entries[i].0@ == k {
        Option::Some(entries[i].1@)
    } else {
        entries_lookup_from(entries, i + 1, k)
    }
}

/// Well-formed credential entries: keys unique, every value provided.
pub open spec fn wf_entries(entries: Seq<(String, String)>) -> bool {
    &&& forall|i: int, j: int|
        0 <= i < j < entries.len() ==> entries[i].0@ != entries[j].0@
    &&& forall|i: int| 0 <= i < entries.len() ==> provided(#[trigger] entries[i].1@)
}

proof fn lemma_lookup_push(entries: Seq<(String, String)>, i: int, p: (String, String), k: Seq<char>)
    requires
        0 <= i <= entries.len(),
    ensures
        entries_lookup_from(entries.push(p), i, k) == opt_or(
            entries_lookup_from(entries, i, k),
            if p.0@ == k {
                Option::Some(p.1@)
            } else {
                Option::None
            },
        ),
    decreases entries.len() - i,
{
    let ep = entries.push(p);
    if i < entries.len() {
        assert(ep[i] == entries[i]);
        lemma_lookup_push(entries, i + 1, p, k);
    } else {
        assert(ep[i] == p);
        assert(entries_lookup_from(ep, i + 1, k) is None);
    }
}

proof fn lemma_lookup_none_absent(entries: Seq<(String, String)>, i: int, k: Seq<char>)
    requires
        0 <= i,
        entries_lookup_from(entries, i, k) is None,
    ensures
        forall|j: int| i <= j < entries.len() ==> entries[j].0@ != k,
    decreases entries.len() - i,
{
    if i < entries.len() {
        lemma_lookup_none_absent(entries, i + 1, k);
    }
}

/// The effective set of credentials: a mapping from key to value with
/// unique keys, in which every value is provided (never blank).
pub struct CredentialSet {
    pub entries: Vec<(String, String)>,
}

impl CredentialSet {
    /// Keys are unique and no value is blank.
    pub open spec fn wf(&self) -> bool {
        wf_entries(self.entries@)
    }

    /// The value this set holds for key `k`, if any.
    pub open spec fn spec_lookup(&self, k: Seq<char>) -> Option<Seq<char>> {
        entries_lookup_from(self.entries@, 0, k)
    }

    /// An empty credential set.
    pub fn new() -> (r: CredentialSet)
        ensures
            r.wf(),
            forall|k: Seq<char>| #[trigger] r.spec_lookup(k) is None,
    {
        CredentialSet { entries: Vec::new() }
    }

    /// Looks a key up, returning its value when present.
    pub fn lookup(&self, key: &str) -> (r: Option<String>)
        ensures
            match r {
                Option::Some(v) => self.spec_lookup(key@) == Option::Some(v@),
                Option::None => self.spec_lookup(key@) is None,
            },
    {
        let n = self.entries.len();
        let mut i: usize = 0;
        while i < n
            invariant
                i <= n,
                n == self.entries.len(),
                entries_lookup_from(self.entries@, 0, key@) == entries_lookup_from(
                    self.entries@,
                    i as int,
                    key@,
                ),
            decreases n - i,
        {
            let e = &self.entries[i];
            if str_eq(e.0.as_str(), key) {
                return Option::Some(e.1.clone());
            }
            i += 1;
        }
        Option::None
    }

    /// Adds `key -> value` unless the key is already present, so an earlier
    /// insertion always wins over a later one.
    pub fn insert_if_absent(&mut self, key: String, value: String)
        requires
            old(self).wf(),
            provided(value@),
        ensures
            final(self).wf(),
            forall|k: Seq<char>|
                #[trigger] final(self).spec_lookup(k) == opt_or(
                    old(self).spec_lookup(k),
                    if k == key@ {
                        Option::Some(value@)
                    } else {
                        Option::None
                    },
                ),
    {
        let existing = self.lookup(key.as_str());
        match existing {
            Option::Some(_) => {
            },
            Option::None => {
                proof {
                    lemma_lookup_none_absent(self.entries@, 0, key@);
                }
                let ghost entries0 = self.entries@;
                self.entries.push((key, value));
                proof {
                    assert forall|k: Seq<char>|
                        #[trigger] final(self).spec_lookup(k) == opt_or(
                            old(self).spec_lookup(k),
                            if k == key@ {
                                Option::Some(value@)
                            } else {
                                Option::None
                            },
                        ) by {
                        lemma_lookup_push(entries0, 0, (key, value), k);
                    };
                    assert forall|i: int, j: int|
                        0 <= i < j < self.entries@.len() implies self.entries@[i].0@
                        != self.entries@[j].0@ by {
                        assert(j < entries0.len() ==> self.entries@[j] == entries0[j]);
                        assert(i < entries0.len() ==> self.entries@[i] == entries0[i]);
                    };
                }
            },
        }
    }
}

/// One origin of key-value configuration, already materialized by the
/// caller: either a structured settings object handed over by the host, or
/// the text of a local dotenv-style credential file.
pub enum CredentialSource {
    Structured(Vec<(String, String)>),
    EnvFile(String),
}

/// A single credential-file line, parsed: blank lines, `#` comments, lines
/// without `=`, lines with a blank key, and lines whose value is blank
/// after trimming and quote-stripping all yield nothing (malformed lines
/// are skipped, never an error); otherwise the trimmed key and the trimmed,
/// unquoted value.
pub open spec fn parse_line_spec(line: Seq<char>) -> Option<(Seq<char>, Seq<char>)> {
    let t = trim_spec(line);
    if t.len() == 0 {
        Option::None
    } else if t[0] == '#' {
        Option::None
    } else {
        let j = find_char_from(t, 0, '=');
        if j >= t.len() {
            Option::None
        } else {
            let key = trim_spec(t.subrange(0, j));
            let val = unquote_spec(trim_spec(t.subrange(j + 1, t.len() as int)));
            if key.len() == 0 || !provided(val) {
                Option::None
            } else {
                Option::Some((key, val))
            }
        }
    }
}

/// Parses one line of a credential file.
pub fn parse_line(line: &str) -> (r: Option<(String, String)>)
    ensures
        match r {
            Option::Some(kv) => parse_line_spec(line@) == Option::Some((kv.0@, kv.1@)),
            Option::None => parse_line_spec(line@) is None,
        },
{
    let t = trim(line);
    let ts = t.as_str();
    let tlen = ts.unicode_len();
    if tlen == 0 {
        return Option::None;
    }
    if ts.get_char(0) == '#' {
        return Option::None;
    }
    let j = find_char_at(ts, 0, '=');
    if j >= tlen {
        return Option::None;
    }
    let key = trim(ts.substring_char(0, j));
    let raw = trim(ts.substring_char(j + 1, tlen));
    let val = unquote(raw.as_str());
    if key.as_str().unicode_len() == 0 {
        return Option::None;
    }
    if !is_provided(val.as_str()) {
        return Option::None;
    }
    Option::Some((key, val))
}

/// The value the credential file text `text` yields for key `k`, scanning
/// line by line from character position `i`: the first parsed line whose
/// key matches wins.
pub open spec fn file_lookup_from(text: Seq<char>, i: int, k: Seq<char>) -> Option<Seq<char>>
    decreases text.len() - i + 1,
{
    if !(0 <= i < text.len()) {
        Option::None
    } else {
        let j = find_char_from(text, i, '\n');
        let j2 = if j < i {
            i
        } else if j > text.len() {
            text.len() as int
        } else {
            j
        };
        match parse_line_spec(text.subrange(i, j2)) {
            Option::Some(kv) => if kv.0 == k {
                Option::Some(kv.1)
            } else {
                file_lookup_from(text, j2 + 1, k)
            },
            Option::None => file_lookup_from(text, j2 + 1, k),
        }
    }
}

/// The value the structured pairs yield for key `k` at or after index `i`:
/// the first pair with that key and a provided (non-blank) value wins;
/// pairs with blank values are treated as absent.
pub open spec fn pairs_lookup_from(
    pairs: Seq<(String, String)>,
    i: int,
    k: Seq<char>,
) -> Option<Seq<char>>
    decreases pairs.len() - i,
{
    if !(0 <= i < pairs.len()) {
        Option::None
    } else if pairs[i].0@ == k && provided(pairs[i].1@) {
        Option::Some(pairs[i].1@)
    } else {
        pairs_lookup_from(pairs, i + 1, k)
    }
}

/// What a single source yields for key `k`.
pub open spec fn source_lookup(src: CredentialSource, k: Seq<char>) -> Option<Seq<char>> {
    match src {
        CredentialSource::Structured(pairs) => pairs_lookup_from(pairs@, 0, k),
        CredentialSource::EnvFile(text) => file_lookup_from(text@, 0, k),
    }
}

/// What an ordered list of sources yields for key `k`, consulting the
/// sources in order from index `i`: the first source providing a value wins.
pub open spec fn sources_lookup_from(
    sources: Seq<CredentialSource>,
    i: int,
    k: Seq<char>,
) -> Option<Seq<char>>
    decreases sources.len() - i,
{
    if !(0 <= i < sources.len()) {
        Option::None
    } else {
        opt_or(source_lookup(sources[i], k), sources_lookup_from(sources, i + 1, k))
    }
}

/// Builds a credential set from the text of a dotenv-style file. Lines are
/// split on `\n`; each is parsed by `parse_line_spec`; the first line
/// providing a key wins.
pub fn parse_credential_file(text: &str) -> (r: CredentialSet)
    ensures
        r.wf(),
        forall|k: Seq<char>| #[trigger] r.spec_lookup(k) == file_lookup_from(text@, 0, k),
{
    let len = text.unicode_len();
    let mut set = CredentialSet::new();
    let mut pos: usize = 0;
    while pos < len
        invariant
            pos <= len + 1,
            len == text@.len(),
            set.wf(),
            forall|k: Seq<char>|
                #[trigger] file_lookup_from(text@, 0, k) == opt_or(
                    set.spec_lookup(k),
                    file_lookup_from(text@, pos as int, k),
                ),
        decreases len + 1 - pos,
    {
        let j = find_char_at(text, pos, '\n');
        let line = text.substring_char(pos, j);
        let ghost set0 = set;
        let parsed = parse_line(line);
        match parsed {
            Option::Some(kv) => {
                set.insert_if_absent(kv.0, kv.1);
            },
            Option::None => {
            },
        }
        proof {
            assert forall|k: Seq<char>|
                #[trigger] file_lookup_from(text@, 0, k) == opt_or(
                    set.spec_lookup(k),
                    file_lookup_from(text@, j as int + 1, k),
                ) by {
                assert(file_lookup_from(text@, 0, k) == opt_or(
                    set0.spec_lookup(k),
                    file_lookup_from(text@, pos as int, k),
                ));
            };
        }
        if j < len {
            pos = j + 1;
        } else {
            proof {
                assert(forall|k: Seq<char>|
                    file_lookup_from(text@, j as int + 1, k) == file_lookup_from(
                        text@,
                        len as int,
                        k,
                    ));
            }
            pos = len;
        }
    }
    set
}

/// Builds a credential set from a structured key-value object: the first
/// pair providing a non-blank value for a key wins.
pub fn from_pairs(pairs: &Vec<(String, String)>) -> (r: CredentialSet)
    ensures
        r.wf(),
        forall|k: Seq<char>| #[trigger] r.spec_lookup(k) == pairs_lookup_from(pairs@, 0, k),
{
    let n = pairs.len();
    let mut set = CredentialSet::new();
    let mut i: usize = 0;
    while i < n
        invariant
            i <= n,
            n == pairs@.len(),
            set.wf(),
            forall|k: Seq<char>|
                #[trigger] pairs_lookup_from(pairs@, 0, k) == opt_or(
                    set.spec_lookup(k),
                    pairs_lookup_from(pairs@, i as int, k),
                ),
        decreases n - i,
    {
        let e = &pairs[i];
        let ghost set0 = set;
        if is_provided(e.1.as_str()) {
            set.insert_if_absent(e.0.clone(), e.1.clone());
        }
        proof {
            assert forall|k: Seq<char>|
                #[trigger] pairs_lookup_from(pairs@, 0, k) == opt_or(
                    set.spec_lookup(k),
                    pairs_lookup_from(pairs@, i + 1, k),
                ) by {
                assert(pairs_lookup_from(pairs@, 0, k) == opt_or(
                    set0.spec_lookup(k),
                    pairs_lookup_from(pairs@, i as int, k),
                ));
            };
        }
        i += 1;
    }
    set
}

/// Materializes one source into a credential set.
pub fn materialize(src: &CredentialSource) -> (r: CredentialSet)
    ensures
        r.wf(),
        forall|k: Seq<char>| #[trigger] r.spec_lookup(k) == source_lookup(*src, k),
{
    match src {
        CredentialSource::Structured(pairs) => from_pairs(pairs),
        CredentialSource::EnvFile(text) => parse_credential_file(text.as_str()),
    }
}

/// Resolves an ordered list of credential sources into one effective set:
/// for every key, the first source providing a value for it wins; keys no
/// source provides are simply absent (never an error).
pub fn resolve(sources: &Vec<CredentialSource>) -> (r: CredentialSet)
    ensures
        r.wf(),
        forall|k: Seq<char>| #[trigger] r.spec_lookup(k) == sources_lookup_from(sources@, 0, k),
{
    let n = sources.len();
    let mut out = CredentialSet::new();
    let mut i: usize = 0;
    while i < n
        invariant
            i <= n,
            n == sources@.len(),
            out.wf(),
            forall|k: Seq<char>|
                #[trigger] sources_lookup_from(sources@, 0, k) == opt_or(
                    out.spec_lookup(k),
                    sources_lookup_from(sources@, i as int, k),
                ),
        decreases n - i,
    {
        let m = materialize(&sources[i]);
        let ghost out0 = out;
        let mn = m.entries.len();
        let mut jj: usize = 0;
        while jj < mn
            invariant
                jj <= mn,
                mn == m.entries@.len(),
                out.wf(),
                m.wf(),
                forall|k: Seq<char>|
                    opt_or(out.spec_lookup(k), entries_lookup_from(m.entries@, jj as int, k))
                        == opt_or(#[trigger] out0.spec_lookup(k), m.spec_lookup(k)),
            decreases mn - jj,
        {
            let e = &m.entries[jj];
            let ghost out_in = out;
            out.insert_if_absent(e.0.clone(), e.1.clone());
            proof {
                assert forall|k: Seq<char>|
                    opt_or(out.spec_lookup(k), entries_lookup_from(m.entries@, jj + 1, k))
                        == opt_or(#[trigger] out0.spec_lookup(k), m.spec_lookup(k)) by {
                    assert(opt_or(
                        out_in.spec_lookup(k),
                        entries_lookup_from(m.entries@, jj as int, k),
                    ) == opt_or(out0.spec_lookup(k), m.spec_lookup(k)));
                };
            }
            jj += 1;
        }
        proof {
            assert forall|k: Seq<char>|
                #[trigger] sources_lookup_from(sources@, 0, k) == opt_or(
                    out.spec_lookup(k),
                    sources_lookup_from(sources@, i + 1, k),
                ) by {
                assert(opt_or(out.spec_lookup(k), entries_lookup_from(m.entries@, mn as int, k))
                    == opt_or(out0.spec_lookup(k), m.spec_lookup(k)));
                assert(sources_lookup_from(sources@, 0, k) == opt_or(
                    out0.spec_lookup(k),
                    sources_lookup_from(sources@, i as int, k),
                ));
                assert(m.spec_lookup(k) == source_lookup(sources@[i as int], k));
            };
        }
        i += 1;
    }
    out
}

/// In a well-formed entry list, every value a lookup can yield is provided.
pub proof fn lemma_lookup_some_provided(entries: Seq<(String, String)>, i: int, k: Seq<char>)
    requires
        wf_entries(entries),
        0 <= i,
    ensures
        match entries_lookup_from(entries, i, k) {
            Option::Some(v) => provided(v),
            Option::None => true,
        },
    decreases entries.len() - i,
{
    if 0 <= i < entries.len() && entries[i].0@ != k {
        lemma_lookup_some_provided(entries, i + 1, k);
    }
}

/// A credential file never yields a blank value: parsing drops them.
pub proof fn lemma_file_lookup_provided(text: Seq<char>, i: int, k: Seq<char>)
    ensures
        match file_lookup_from(text, i, k) {
            Option::Some(v) => provided(v),
            Option::None => true,
        },
    decreases text.len() - i + 1,
{
    if 0 <= i < text.len() {
        let j = find_char_from(text, i, '\n');
        let j2 = if j < i {
            i
        } else if j > text.len() {
            text.len() as int
        } else {
            j
        };
        lemma_file_lookup_provided(text, j2 + 1, k);
    }
}

/// A structured source never yields a blank value: blanks count as absent.
pub proof fn lemma_pairs_lookup_provided(pairs: Seq<(String, String)>, i: int, k: Seq<char>)
    ensures
        match pairs_lookup_from(pairs, i, k) {
            Option::Some(v) => provided(v),
            Option::None => true,
        },
    decreases pairs.len() - i,
{
    if 0 <= i < pairs.len() {
        lemma_pairs_lookup_provided(pairs, i + 1, k);
    }
}

/// Resolution never yields a blank value, whatever the sources hold.
pub proof fn lemma_sources_lookup_provided(sources: Seq<CredentialSource>, i: int, k: Seq<char>)
    ensures
        match sources_lookup_from(sources, i, k) {
            Option::Some(v) => provided(v),
            Option::None => true,
        },
    decreases sources.len() - i,
{
    if 0 <= i < sources.len() {
        lemma_sources_lookup_provided(sources, i + 1, k);
        match sources[i] {
            CredentialSource::Structured(pairs) => {
                lemma_pairs_lookup_provided(pairs@, 0, k);
            },
            CredentialSource::EnvFile(text) => {
                lemma_file_lookup_provided(text@, 0, k);
            },
        }
    }
}

/// The mapping a credential set stands for: its domain is the keys a lookup
/// finds, each mapped to the value the lookup yields.
pub open spec fn set_map(cs: CredentialSet) -> Map<Seq<char>, Seq<char>> {
    Map::new(
        |k: Seq<char>| cs.spec_lookup(k) is Some,
        |k: Seq<char>|
            match cs.spec_lookup(k) {
                Option::Some(v) => v,
                Option::None => Seq::empty(),
            },
    )
}

/// The mapping an ordered list of sources resolves to, with the first
/// source providing a key taking precedence.
pub open spec fn sources_map(sources: Seq<CredentialSource>) -> Map<Seq<char>, Seq<char>> {
    Map::new(
        |k: Seq<char>| sources_lookup_from(sources, 0, k) is Some,
        |k: Seq<char>|
            match sources_lookup_from(sources, 0, k) {
                Option::Some(v) => v,
                Option::None => Seq::empty(),
            },
    )
}

/// Precedence law: if source `i` provides a value for key `k` and no source
/// before it does, resolution yields source `i`'s value. In particular a
/// value in the first source always wins over every later source.
pub proof fn lemma_source_precedence(
    sources: Seq<CredentialSource>,
    start: int,
    i: int,
    k: Seq<char>,
)
    requires
        0 <= start <= i < sources.len(),
        source_lookup(sources[i], k) is Some,
        forall|j: int| start <= j < i ==> source_lookup(#[trigger] sources[j], k) is None,
    ensures
        sources_lookup_from(sources, start, k) == source_lookup(sources[i], k),
    decreases i - start,
{
    if start < i {
        lemma_source_precedence(sources, start + 1, i, k);
    }
}

} // verus!
