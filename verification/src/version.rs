//! Package versions: a parsed semantic version and its precedence order.
//!
//! A `Version` keeps the three numeric components, the pre-release
//! identifiers, and the exact text it was parsed from.  Precedence follows
//! semantic versioning: numeric comparison of major, minor and patch; a
//! pre-release sorts before the corresponding release; pre-releases compare
//! identifier by identifier.  Build metadata never affects the order.

use vstd::prelude::*;

verus! {

/// A character that may appear in a version identifier.
pub open spec fn ident_char(c: char) -> bool {
    ('0' <= c && c <= '9') || ('a' <= c && c <= 'z') || ('A' <= c && c <= 'Z') || c == '-'
}

/// An identifier made of digits alone, compared numerically by the
/// precedence rules.
pub open spec fn is_numeric(s: Seq<char>) -> bool {
    forall|i: int| 0 <= i < s.len() ==> '0' <= #[trigger] s[i] && s[i] <= '9'
}

/// A well-formed version identifier: non-empty, over the identifier
/// alphabet, and with no leading zero when numeric.
pub open spec fn ident_wf(s: Seq<char>) -> bool {
    &&& s.len() > 0
    &&& forall|i: int| 0 <= i < s.len() ==> ident_char(#[trigger] s[i])
    &&& (is_numeric(s) && s.len() > 1 ==> s[0] != '0')
}

/// Strict lexicographic order on character sequences, by character code;
/// a strict prefix sorts first.
pub open spec fn lex_lt(a: Seq<char>, b: Seq<char>) -> bool
    decreases a.len(),
{
    if b.len() == 0 {
        false
    } else if a.len() == 0 {
        true
    } else if a[0] != b[0] {
        (a[0] as u32) < (b[0] as u32)
    } else {
        lex_lt(a.drop_first(), b.drop_first())
    }
}

pub proof fn lemma_lex_lt_asym(a: Seq<char>, b: Seq<char>)
    requires
        lex_lt(a, b),
    ensures
        !lex_lt(b, a),
    decreases a.len(),
{
    if b.len() == 0 {
    } else if a.len() == 0 {
    } else if a[0] != b[0] {
    } else {
        lemma_lex_lt_asym(a.drop_first(), b.drop_first());
    }
}

pub proof fn lemma_lex_lt_trans(a: Seq<char>, b: Seq<char>, c: Seq<char>)
    requires
        lex_lt(a, b),
        lex_lt(b, c),
    ensures
        lex_lt(a, c),
    decreases a.len(),
{
    if c.len() == 0 {
    } else if b.len() == 0 {
    } else if a.len() == 0 {
    } else if a[0] == b[0] && b[0] == c[0] {
        lemma_lex_lt_trans(a.drop_first(), b.drop_first(), c.drop_first());
    }
}

/// Two sequences neither of which sorts before the other are equal.
pub proof fn lemma_lex_lt_conn(a: Seq<char>, b: Seq<char>)
    requires
        !lex_lt(a, b),
        !lex_lt(b, a),
    ensures
        a == b,
    decreases a.len(),
{
    if a.len() == 0 && b.len() == 0 {
        assert(a =~= b);
    } else if a.len() > 0 && b.len() > 0 {
        vstd::utf8::char_u32_cast(a[0], a[0] as u32);
        vstd::utf8::char_u32_cast(b[0], b[0] as u32);
        assert(a[0] == b[0]);
        lemma_lex_lt_conn(a.drop_first(), b.drop_first());
        assert(a =~= seq![a[0]] + a.drop_first());
        assert(b =~= seq![b[0]] + b.drop_first());
    }
}

/// Precedence order on single pre-release identifiers.  Numeric identifiers
/// sort before alphanumeric ones.  Two numeric identifiers compare by length
/// and then lexicographically, which is numeric comparison, since a
/// well-formed numeric identifier carries no leading zero.  Two alphanumeric
/// identifiers compare in ASCII order.
pub open spec fn ident_lt(a: Seq<char>, b: Seq<char>) -> bool {
    if is_numeric(a) && is_numeric(b) {
        a.len() < b.len() || (a.len() == b.len() && lex_lt(a, b))
    } else if is_numeric(a) {
        true
    } else if is_numeric(b) {
        false
    } else {
        lex_lt(a, b)
    }
}

proof fn lemma_ident_lt_asym(a: Seq<char>, b: Seq<char>)
    requires
        ident_lt(a, b),
    ensures
        !ident_lt(b, a),
{
    if is_numeric(a) && is_numeric(b) && a.len() == b.len() {
        lemma_lex_lt_asym(a, b);
    } else if !is_numeric(a) && !is_numeric(b) {
        lemma_lex_lt_asym(a, b);
    }
}

proof fn lemma_ident_lt_trans(a: Seq<char>, b: Seq<char>, c: Seq<char>)
    requires
        ident_lt(a, b),
        ident_lt(b, c),
    ensures
        ident_lt(a, c),
{
    if is_numeric(a) && is_numeric(b) && is_numeric(c) {
        if a.len() == b.len() && b.len() == c.len() {
            lemma_lex_lt_trans(a, b, c);
        }
    } else if !is_numeric(a) && !is_numeric(b) && !is_numeric(c) {
        lemma_lex_lt_trans(a, b, c);
    }
}

/// Two identifiers neither of which precedes the other are equal.
proof fn lemma_ident_lt_conn(a: Seq<char>, b: Seq<char>)
    requires
        !ident_lt(a, b),
        !ident_lt(b, a),
    ensures
        a == b,
{
    lemma_lex_lt_conn(a, b);
}

/// Precedence order on pre-release identifier lists: identifier by
/// identifier, with a strict prefix sorting first.
pub open spec fn idents_lt(a: Seq<Seq<char>>, b: Seq<Seq<char>>) -> bool
    decreases a.len(),
{
    if b.len() == 0 {
        false
    } else if a.len() == 0 {
        true
    } else if ident_lt(a[0], b[0]) {
        true
    } else if ident_lt(b[0], a[0]) {
        false
    } else {
        idents_lt(a.drop_first(), b.drop_first())
    }
}

proof fn lemma_idents_lt_asym(a: Seq<Seq<char>>, b: Seq<Seq<char>>)
    requires
        idents_lt(a, b),
    ensures
        !idents_lt(b, a),
    decreases a.len(),
{
    if b.len() == 0 {
    } else if a.len() == 0 {
    } else if ident_lt(a[0], b[0]) {
        lemma_ident_lt_asym(a[0], b[0]);
    } else if ident_lt(b[0], a[0]) {
    } else {
        lemma_idents_lt_asym(a.drop_first(), b.drop_first());
    }
}

proof fn lemma_idents_lt_trans(a: Seq<Seq<char>>, b: Seq<Seq<char>>, c: Seq<Seq<char>>)
    requires
        idents_lt(a, b),
        idents_lt(b, c),
    ensures
        idents_lt(a, c),
    decreases a.len(),
{
    if c.len() == 0 || b.len() == 0 || a.len() == 0 {
    } else {
        if ident_lt(a[0], b[0]) && ident_lt(b[0], c[0]) {
            lemma_ident_lt_trans(a[0], b[0], c[0]);
        } else if ident_lt(a[0], b[0]) && !ident_lt(b[0], c[0]) && !ident_lt(c[0], b[0]) {
            lemma_ident_lt_conn(b[0], c[0]);
        } else if !ident_lt(a[0], b[0]) && !ident_lt(b[0], a[0]) && ident_lt(b[0], c[0]) {
            lemma_ident_lt_conn(a[0], b[0]);
        } else if !ident_lt(a[0], b[0]) && !ident_lt(b[0], a[0]) && !ident_lt(b[0], c[0])
            && !ident_lt(c[0], b[0]) {
            lemma_ident_lt_conn(a[0], b[0]);
            lemma_ident_lt_conn(b[0], c[0]);
            lemma_idents_lt_trans(a.drop_first(), b.drop_first(), c.drop_first());
        }
    }
}

/// Two identifier lists neither of which precedes the other are equal.
proof fn lemma_idents_lt_conn(a: Seq<Seq<char>>, b: Seq<Seq<char>>)
    requires
        !idents_lt(a, b),
        !idents_lt(b, a),
    ensures
        a == b,
    decreases a.len(),
{
    if a.len() == 0 && b.len() == 0 {
        assert(a =~= b);
    } else if a.len() > 0 && b.len() > 0 {
        lemma_ident_lt_conn(a[0], b[0]);
        lemma_idents_lt_conn(a.drop_first(), b.drop_first());
        assert(a =~= seq![a[0]] + a.drop_first());
        assert(b =~= seq![b[0]] + b.drop_first());
    }
}

/// Pre-release precedence.  The empty list stands for a release, which
/// sorts after every pre-release; two pre-releases compare by their
/// identifier lists.
pub open spec fn pre_lt(a: Seq<Seq<char>>, b: Seq<Seq<char>>) -> bool {
    if a.len() == 0 {
        false
    } else if b.len() == 0 {
        true
    } else {
        idents_lt(a, b)
    }
}

proof fn lemma_pre_lt_asym(a: Seq<Seq<char>>, b: Seq<Seq<char>>)
    requires
        pre_lt(a, b),
    ensures
        !pre_lt(b, a),
{
    if a.len() > 0 && b.len() > 0 {
        lemma_idents_lt_asym(a, b);
    }
}

proof fn lemma_pre_lt_trans(a: Seq<Seq<char>>, b: Seq<Seq<char>>, c: Seq<Seq<char>>)
    requires
        pre_lt(a, b),
        pre_lt(b, c),
    ensures
        pre_lt(a, c),
{
    if a.len() > 0 && b.len() > 0 && c.len() > 0 {
        lemma_idents_lt_trans(a, b, c);
    }
}

proof fn lemma_pre_lt_conn(a: Seq<Seq<char>>, b: Seq<Seq<char>>)
    requires
        !pre_lt(a, b),
        !pre_lt(b, a),
    ensures
        a == b,
{
    if a.len() == 0 && b.len() == 0 {
        assert(a =~= b);
    } else {
        lemma_idents_lt_conn(a, b);
    }
}

/// The mathematical value of a version: the three numeric components, the
/// pre-release identifiers, and the text the version was written as.
pub struct VersionModel {
    pub major: u64,
    pub minor: u64,
    pub patch: u64,
    pub pre: Seq<Seq<char>>,
    pub text: Seq<char>,
}

/// Strict semantic-versioning precedence on versions: major, then minor,
/// then patch, numerically; then pre-release precedence.  The text (and with
/// it any build metadata) never affects the order.
pub open spec fn version_lt(a: VersionModel, b: VersionModel) -> bool {
    ||| a.major < b.major
    ||| (a.major == b.major && a.minor < b.minor)
    ||| (a.major == b.major && a.minor == b.minor && a.patch < b.patch)
    ||| (a.major == b.major && a.minor == b.minor && a.patch == b.patch && pre_lt(a.pre, b.pre))
}

proof fn lemma_idents_lt_irrefl(a: Seq<Seq<char>>)
    ensures
        !idents_lt(a, a),
    decreases a.len(),
{
    if a.len() > 0 {
        lemma_ident_lt_irrefl(a[0]);
        lemma_idents_lt_irrefl(a.drop_first());
    }
}

/// Irreflexivity: no version precedes itself.
pub proof fn lemma_version_lt_irrefl(a: VersionModel)
    ensures
        !version_lt(a, a),
{
    if a.pre.len() > 0 {
        lemma_idents_lt_irrefl(a.pre);
    }
}

/// Asymmetry: no two versions each precede the other.
pub proof fn lemma_version_lt_asym(a: VersionModel, b: VersionModel)
    requires
        version_lt(a, b),
    ensures
        !version_lt(b, a),
{
    if a.major == b.major && a.minor == b.minor && a.patch == b.patch {
        lemma_pre_lt_asym(a.pre, b.pre);
    }
}

/// Transitivity of version precedence.
pub proof fn lemma_version_lt_trans(a: VersionModel, b: VersionModel, c: VersionModel)
    requires
        version_lt(a, b),
        version_lt(b, c),
    ensures
        version_lt(a, c),
{
    if a.major == b.major && a.minor == b.minor && a.patch == b.patch && b.major == c.major
        && b.minor == c.minor && b.patch == c.patch {
        lemma_pre_lt_trans(a.pre, b.pre, c.pre);
    }
}

/// Two versions neither of which precedes the other agree on everything the
/// order reads: the numeric components and the pre-release identifiers.
pub proof fn lemma_version_lt_conn(a: VersionModel, b: VersionModel)
    requires
        !version_lt(a, b),
        !version_lt(b, a),
    ensures
        a.major == b.major && a.minor == b.minor && a.patch == b.patch && a.pre == b.pre,
{
    lemma_pre_lt_conn(a.pre, b.pre);
}

proof fn lemma_lex_lt_skip(a: Seq<char>, b: Seq<char>, i: int)
    requires
        0 <= i <= a.len(),
        i <= b.len(),
        forall|j: int| 0 <= j < i ==> a[j] == b[j],
    ensures
        lex_lt(a, b) == lex_lt(a.skip(i), b.skip(i)),
    decreases i,
{
    if i == 0 {
        assert(a.skip(0) =~= a);
        assert(b.skip(0) =~= b);
    } else {
        assert(a.drop_first().skip(i - 1) =~= a.skip(i));
        assert(b.drop_first().skip(i - 1) =~= b.skip(i));
        lemma_lex_lt_skip(a.drop_first(), b.drop_first(), i - 1);
    }
}

/// Whether every character of `s` is a decimal digit.
pub fn is_numeric_exec(s: &str) -> (r: bool)
    ensures
        r == is_numeric(s@),
{
    let len = s.unicode_len();
    let mut i: usize = 0;
    loop
        invariant
            0 <= i <= len,
            len == s@.len(),
            forall|j: int| 0 <= j < i ==> '0' <= #[trigger] s@[j] && s@[j] <= '9',
        decreases len - i,
    {
        if i == len {
            return true;
        }
        let c = s.get_char(i);
        if !('0' <= c && c <= '9') {
            return false;
        }
        i = i + 1;
    }
}

/// Strict lexicographic comparison of two strings.
pub fn lex_lt_exec(a: &str, b: &str) -> (r: bool)
    ensures
        r == lex_lt(a@, b@),
{
    let alen = a.unicode_len();
    let blen = b.unicode_len();
    let mut i: usize = 0;
    loop
        invariant
            0 <= i <= alen,
            i <= blen,
            alen == a@.len(),
            blen == b@.len(),
            forall|j: int| 0 <= j < i ==> a@[j] == b@[j],
        decreases alen - i,
    {
        proof {
            lemma_lex_lt_skip(a@, b@, i as int);
        }
        if i == alen {
            return blen > alen;
        }
        if i == blen {
            return false;
        }
        let ca = a.get_char(i);
        let cb = b.get_char(i);
        if ca != cb {
            return (ca as u32) < (cb as u32);
        }
        i = i + 1;
    }
}

/// Precedence comparison of two single identifiers.
pub fn ident_lt_exec(a: &str, b: &str) -> (r: bool)
    ensures
        r == ident_lt(a@, b@),
{
    let a_num = is_numeric_exec(a);
    let b_num = is_numeric_exec(b);
    if a_num && b_num {
        let alen = a.unicode_len();
        let blen = b.unicode_len();
        alen < blen || (alen == blen && lex_lt_exec(a, b))
    } else if a_num {
        true
    } else if b_num {
        false
    } else {
        lex_lt_exec(a, b)
    }
}

pub proof fn lemma_lex_lt_irrefl(a: Seq<char>)
    ensures
        !lex_lt(a, a),
    decreases a.len(),
{
    if a.len() > 0 {
        lemma_lex_lt_irrefl(a.drop_first());
    }
}

proof fn lemma_ident_lt_irrefl(a: Seq<char>)
    ensures
        !ident_lt(a, a),
{
    lemma_lex_lt_irrefl(a);
}

proof fn lemma_idents_lt_skip(a: Seq<Seq<char>>, b: Seq<Seq<char>>, i: int)
    requires
        0 <= i <= a.len(),
        i <= b.len(),
        forall|j: int| 0 <= j < i ==> a[j] == b[j],
    ensures
        idents_lt(a, b) == idents_lt(a.skip(i), b.skip(i)),
    decreases i,
{
    if i == 0 {
        assert(a.skip(0) =~= a);
        assert(b.skip(0) =~= b);
    } else {
        assert(a[0] == b[0]);
        lemma_ident_lt_irrefl(a[0]);
        assert(a.drop_first().skip(i - 1) =~= a.skip(i));
        assert(b.drop_first().skip(i - 1) =~= b.skip(i));
        lemma_idents_lt_skip(a.drop_first(), b.drop_first(), i - 1);
    }
}

/// Precedence comparison of two identifier lists.
pub fn idents_lt_exec(a: &Vec<String>, b: &Vec<String>) -> (r: bool)
    ensures
        r == idents_lt(a.deep_view(), b.deep_view()),
{
    let mut i: usize = 0;
    loop
        invariant
            0 <= i <= a.len(),
            i <= b.len(),
            forall|j: int| 0 <= j < i ==> a.deep_view()[j] == b.deep_view()[j],
        decreases a.len() - i,
    {
        proof {
            lemma_idents_lt_skip(a.deep_view(), b.deep_view(), i as int);
        }
        if i == a.len() {
            return b.len() > a.len();
        }
        if i == b.len() {
            return false;
        }
        if ident_lt_exec(a[i].as_str(), b[i].as_str()) {
            return true;
        }
        if ident_lt_exec(b[i].as_str(), a[i].as_str()) {
            return false;
        }
        proof {
            lemma_ident_lt_conn(a.deep_view()[i as int], b.deep_view()[i as int]);
        }
        i = i + 1;
    }
}

/// A parsed semantic version.  `pre` holds the pre-release identifiers, in
/// order, and is empty for a release.  `text` is the exact text the version
/// was parsed from, kept for rendering.
#[derive(Debug)]
pub struct Version {
    pub major: u64,
    pub minor: u64,
    pub patch: u64,
    pub pre: Vec<String>,
    pub text: String,
}

impl View for Version {
    type V = VersionModel;

    open spec fn view(&self) -> VersionModel {
        VersionModel {
            major: self.major,
            minor: self.minor,
            patch: self.patch,
            pre: self.pre.deep_view(),
            text: self.text@,
        }
    }
}

impl Version {
    /// Whether this version sorts strictly before `other` in
    /// semantic-versioning precedence.
    pub fn precedes(&self, other: &Version) -> (r: bool)
        ensures
            r == version_lt(self@, other@),
    {
        if self.major != other.major {
            self.major < other.major
        } else if self.minor != other.minor {
            self.minor < other.minor
        } else if self.patch != other.patch {
            self.patch < other.patch
        } else if self.pre.len() == 0 {
            false
        } else if other.pre.len() == 0 {
            true
        } else {
            idents_lt_exec(&self.pre, &other.pre)
        }
    }
}

/// The segments of `s` between dots.  The empty text has one empty segment.
pub open spec fn split_dots(s: Seq<char>) -> Seq<Seq<char>>
    decreases s.len(),
{
    if s.len() == 0 {
        seq![Seq::empty()]
    } else if s.last() == '.' {
        split_dots(s.drop_last()).push(Seq::empty())
    } else {
        let init = split_dots(s.drop_last());
        init.update(init.len() - 1, init.last().push(s.last()))
    }
}

proof fn lemma_split_dots_len(s: Seq<char>)
    ensures
        split_dots(s).len() >= 1,
    decreases s.len(),
{
    if s.len() > 0 {
        lemma_split_dots_len(s.drop_last());
    }
}

/// The pre-release identifiers written in `s`: none when `s` is empty, else
/// the dot-separated segments.
pub open spec fn pre_idents_of(s: Seq<char>) -> Seq<Seq<char>> {
    if s.len() == 0 {
        Seq::empty()
    } else {
        split_dots(s)
    }
}

/// Split a pre-release text into its dot-separated identifiers.
pub fn split_pre(s: &str) -> (r: Vec<String>)
    ensures
        r.deep_view() == pre_idents_of(s@),
{
    let len = s.unicode_len();
    let mut r: Vec<String> = Vec::new();
    if len == 0 {
        proof {
            assert(r.deep_view() =~= pre_idents_of(s@));
        }
        return r;
    }
    let mut start: usize = 0;
    let mut i: usize = 0;
    proof {
        assert(s@.subrange(0, 0) =~= Seq::<char>::empty());
        assert(r.deep_view() =~= Seq::<Seq<char>>::empty());
        assert(split_dots(s@.subrange(0, 0)) =~= r.deep_view().push(s@.subrange(0, 0)));
    }
    loop
        invariant
            0 <= start <= i <= len,
            len == s@.len(),
            len > 0,
            split_dots(s@.subrange(0, i as int)) =~= r.deep_view().push(
                s@.subrange(start as int, i as int),
            ),
        decreases len - i,
    {
        proof {
            lemma_split_dots_len(s@.subrange(0, i as int));
        }
        if i == len {
            let seg = s.substring_char(start, len);
            r.push(seg.to_owned());
            proof {
                assert(s@.subrange(0, len as int) =~= s@);
                assert(r.deep_view() =~= split_dots(s@));
            }
            return r;
        }
        let c = s.get_char(i);
        proof {
            assert(s@.subrange(0, i + 1).drop_last() =~= s@.subrange(0, i as int));
            assert(s@.subrange(0, i + 1).last() == s@[i as int]);
        }
        if c == '.' {
            let seg = s.substring_char(start, i);
            r.push(seg.to_owned());
            start = i + 1;
            i = i + 1;
            proof {
                assert(s@.subrange(start as int, i as int) =~= Seq::<char>::empty());
                assert(split_dots(s@.subrange(0, i as int)) =~= r.deep_view().push(
                    s@.subrange(start as int, i as int),
                ));
            }
        } else {
            i = i + 1;
            proof {
                assert(s@.subrange(start as int, i as int) =~= s@.subrange(
                    start as int,
                    i - 1,
                ).push(s@[i - 1]));
                assert(split_dots(s@.subrange(0, i as int)) =~= r.deep_view().push(
                    s@.subrange(start as int, i as int),
                ));
            }
        }
    }
}

/// What a semantic-version text parses to: the three numeric components and
/// the pre-release text, or nothing when the text is not a valid version.
/// The value is fixed by the parser of the `semver` crate.
pub uninterp spec fn semver_parts(s: Seq<char>) -> Option<(u64, u64, u64, Seq<char>)>;

/// Every identifier of a parsed pre-release text is well-formed.
pub open spec fn pre_text_wf(s: Seq<char>) -> bool {
    forall|k: int|
        0 <= k < pre_idents_of(s).len() ==> ident_wf(#[trigger] pre_idents_of(s)[k])
}

/// The raw components a version text parses to.
#[derive(Debug)]
pub struct VersionParts {
    pub major: u64,
    pub minor: u64,
    pub patch: u64,
    pub pre: String,
}

/// Relies on `semver::Version::parse` for semantic-versioning syntax: it
/// returns the numeric components and the pre-release text of a valid
/// version and rejects anything else, and its parser admits only dot-separated,
/// non-empty identifiers over ASCII alphanumerics and hyphens, with no
/// leading zero in a numeric identifier.
#[verifier::external_body]
fn semver_parse_raw(s: &str) -> (r: Option<VersionParts>)
    ensures
        r is Some <==> semver_parts(s@) is Some,
        r matches Some(p) ==> semver_parts(s@) matches Some(q) && p.major == q.0 && p.minor
            == q.1 && p.patch == q.2 && p.pre@ == q.3 && pre_text_wf(q.3),
{
    match semver::Version::parse(s) {
        Ok(v) => Some(
            VersionParts {
                major: v.major,
                minor: v.minor,
                patch: v.patch,
                pre: v.pre.as_str().to_string(),
            },
        ),
        Err(_) => None,
    }
}

/// The version model a text parses to, keeping the text itself.
pub open spec fn version_model_of(s: Seq<char>) -> Option<VersionModel> {
    match semver_parts(s) {
        Option::None => Option::None,
        Option::Some(q) => Option::Some(
            VersionModel {
                major: q.0,
                minor: q.1,
                patch: q.2,
                pre: pre_idents_of(q.3),
                text: s,
            },
        ),
    }
}

/// Every pre-release identifier of the version is well-formed.
pub open spec fn version_wf(v: VersionModel) -> bool {
    forall|k: int| 0 <= k < v.pre.len() ==> ident_wf(#[trigger] v.pre[k])
}

/// Parse a semantic-version text.  Returns its parsed form, or nothing when
/// the text is not a valid version.
pub fn parse_version(s: &str) -> (r: Option<Version>)
    ensures
        r is Some <==> version_model_of(s@) is Some,
        r matches Some(v) ==> version_model_of(s@) == Some(v@) && version_wf(v@),
{
    match semver_parse_raw(s) {
        Option::None => Option::None,
        Option::Some(p) => {
            let pre = split_pre(p.pre.as_str());
            let v = Version {
                major: p.major,
                minor: p.minor,
                patch: p.patch,
                pre,
                text: s.to_owned(),
            };
            Option::Some(v)
        },
    }
}

} // verus!
