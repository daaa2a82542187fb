//! The options of the `docbuf` and `docbuf_rpc` attributes, read from the
//! texts of the attribute's tokens (`key = value, ...`).
use vstd::prelude::*;
use crate::utf8_text::str_eq;

verus! {

/// Namespace used when the options name none.
pub const DEFAULT_NAMESPACE: &'static str = "default";

/// The text without its double quotes.
pub open spec fn unquoted(s: Seq<char>) -> Seq<char>
    decreases s.len(),
{
    if s.len() == 0 {
        Seq::empty()
    } else if s.last() == '"' {
        unquoted(s.drop_last())
    } else {
        unquoted(s.drop_last()).push(s.last())
    }
}

/// Removes every double quote from `s`.
pub fn remove_quotes(s: &str) -> (r: String)
    ensures
        r@ == unquoted(s@),
{
    let n = s.unicode_len();
    let mut r = String::new();
    let mut i: usize = 0;
    while i < n
        invariant
            n == s@.len(),
            i <= n,
            r@ == unquoted(s@.subrange(0, i as int)),
        decreases n - i,
    {
        let c = s.get_char(i);
        assert(s@.subrange(0, i + 1).drop_last() =~= s@.subrange(0, i as int));
        if c != '"' {
            let piece = s.substring_char(i, i + 1);
            r.append(piece);
            assert(piece@ =~= seq![c]);
        }
        i = i + 1;
    }
    assert(s@.subrange(0, n as int) =~= s@);
    r
}

/// The signing algorithms a document can be signed with.
#[derive(Debug, Clone, Copy, PartialEq, Eq, Hash)]
pub enum DocBufCryptoAlgorithm {
    Ed25519,
}

impl DocBufCryptoAlgorithm {
    /// The algorithm named `algo`; only `ed25519` is supported.
    pub fn from_name(algo: &str) -> (a: Self)
        requires
            algo@ == "ed25519"@,
        ensures
            a == DocBufCryptoAlgorithm::Ed25519,
    {
        DocBufCryptoAlgorithm::Ed25519
    }
}

/// The hash algorithms a document can be hashed with.
#[derive(Debug, Clone, Copy, PartialEq, Eq, Hash)]
pub enum HashAlgorithm {
    Sha256,
}

impl HashAlgorithm {
    /// The algorithm named `algo`; only `sha256` is supported.
    pub fn from_name(algo: &str) -> (a: Self)
        requires
            algo@ == "sha256"@,
        ensures
            a == HashAlgorithm::Sha256,
    {
        HashAlgorithm::Sha256
    }
}

/// One option of the `docbuf` attribute.
#[derive(Debug, Clone)]
pub enum DocBufOpt {
    Namespace(String),
    Sign(bool),
    Crypto(DocBufCryptoAlgorithm),
    Hash(HashAlgorithm),
    Html(String),
    UseUuid(bool),
    UseDb(bool),
    DbConfig(String),
}

/// Model of an option: texts taken by their characters.
pub enum OptModel {
    Namespace(Seq<char>),
    Sign(bool),
    Crypto(DocBufCryptoAlgorithm),
    Hash(HashAlgorithm),
    Html(Seq<char>),
    UseUuid(bool),
    UseDb(bool),
    DbConfig(Seq<char>),
}

impl View for DocBufOpt {
    type V = OptModel;

    open spec fn view(&self) -> OptModel {
        match self {
            DocBufOpt::Namespace(s) => OptModel::Namespace(s@),
            DocBufOpt::Sign(b) => OptModel::Sign(*b),
            DocBufOpt::Crypto(a) => OptModel::Crypto(*a),
            DocBufOpt::Hash(a) => OptModel::Hash(*a),
            DocBufOpt::Html(s) => OptModel::Html(s@),
            DocBufOpt::UseUuid(b) => OptModel::UseUuid(*b),
            DocBufOpt::UseDb(b) => OptModel::UseDb(*b),
            DocBufOpt::DbConfig(s) => OptModel::DbConfig(s@),
        }
    }
}

/// The option that a key and a value stand for; `None` for a key or an
/// algorithm that is not supported.
pub open spec fn opt_of_pair(key: Seq<char>, value: Seq<char>) -> Option<OptModel> {
    if key == "namespace"@ {
        Some(OptModel::Namespace(value))
    } else if key == "sign"@ {
        Some(OptModel::Sign(value == "true"@))
    } else if key == "crypto"@ {
        if value == "ed25519"@ {
            Some(OptModel::Crypto(DocBufCryptoAlgorithm::Ed25519))
        } else {
            None
        }
    } else if key == "hash"@ {
        if value == "sha256"@ {
            Some(OptModel::Hash(HashAlgorithm::Sha256))
        } else {
            None
        }
    } else if key == "html"@ {
        Some(OptModel::Html(value))
    } else if key == "uuid"@ {
        Some(OptModel::UseUuid(value == "true"@))
    } else if key == "db"@ {
        Some(OptModel::UseDb(value == "true"@))
    } else if key == "db_config"@ {
        Some(OptModel::DbConfig(value))
    } else {
        None
    }
}

impl DocBufOpt {
    /// The option for `key = value`.
    pub fn from_pair(key: &str, value: &str) -> (o: Self)
        requires
            opt_of_pair(key@, value@) is Some,
        ensures
            opt_of_pair(key@, value@) == Some(o@),
    {
        if str_eq(key, "namespace") {
            DocBufOpt::Namespace(value.to_string())
        } else if str_eq(key, "sign") {
            DocBufOpt::Sign(str_eq(value, "true"))
        } else if str_eq(key, "crypto") {
            DocBufOpt::Crypto(DocBufCryptoAlgorithm::from_name(value))
        } else if str_eq(key, "hash") {
            DocBufOpt::Hash(HashAlgorithm::from_name(value))
        } else if str_eq(key, "html") {
            DocBufOpt::Html(value.to_string())
        } else if str_eq(key, "uuid") {
            DocBufOpt::UseUuid(str_eq(value, "true"))
        } else if str_eq(key, "db") {
            DocBufOpt::UseDb(str_eq(value, "true"))
        } else {
            DocBufOpt::DbConfig(value.to_string())
        }
    }

    /// Whether two options are equal.
    pub fn eq_opt(&self, other: &Self) -> (r: bool)
        ensures
            r == (self@ == other@),
    {
        match (self, other) {
            (DocBufOpt::Namespace(a), DocBufOpt::Namespace(b)) => str_eq(a.as_str(), b.as_str()),
            (DocBufOpt::Sign(a), DocBufOpt::Sign(b)) => *a == *b,
            (DocBufOpt::Crypto(_), DocBufOpt::Crypto(_)) => true,
            (DocBufOpt::Hash(_), DocBufOpt::Hash(_)) => true,
            (DocBufOpt::Html(a), DocBufOpt::Html(b)) => str_eq(a.as_str(), b.as_str()),
            (DocBufOpt::UseUuid(a), DocBufOpt::UseUuid(b)) => *a == *b,
            (DocBufOpt::UseDb(a), DocBufOpt::UseDb(b)) => *a == *b,
            (DocBufOpt::DbConfig(a), DocBufOpt::DbConfig(b)) => str_eq(a.as_str(), b.as_str()),
            _ => false,
        }
    }
}

/// The options of the `docbuf` attribute: a set of options.
#[derive(Debug, Clone)]
pub struct DocBufOpts(Vec<DocBufOpt>);

impl View for DocBufOpts {
    type V = Seq<OptModel>;

    closed spec fn view(&self) -> Seq<OptModel> {
        self.0@.map_values(|o: DocBufOpt| o@)
    }
}

/// No option occurs twice.
pub open spec fn no_repeats(s: Seq<OptModel>) -> bool {
    forall|i: int, j: int| 0 <= i < j < s.len() ==> s[i] != s[j]
}

/// The texts of a list of strings.
pub open spec fn texts_of(tokens: Seq<String>) -> Seq<Seq<char>> {
    tokens.map_values(|t: String| t@)
}

/// The option pairs that the tokens `key = value ,` of an attribute hold:
/// four tokens per option, as many whole options as there are.
pub open spec fn token_pairs(tokens: Seq<Seq<char>>) -> Seq<(Seq<char>, Seq<char>)> {
    Seq::new(
        (tokens.len() / 4) as nat,
        |i: int| (unquoted(tokens[4 * i]), unquoted(tokens[4 * i + 2])),
    )
}

/// The set of options `s` with `o` added.
pub open spec fn with_opt(s: Seq<OptModel>, o: OptModel) -> Seq<OptModel> {
    if s.contains(o) {
        s
    } else {
        s.push(o)
    }
}

/// The options of a list of pairs, added in order.
pub open spec fn opts_of_pairs(pairs: Seq<(Seq<char>, Seq<char>)>) -> Seq<OptModel>
    decreases pairs.len(),
{
    if pairs.len() == 0 {
        Seq::empty()
    } else {
        with_opt(
            opts_of_pairs(pairs.drop_last()),
            opt_of_pair(pairs.last().0, pairs.last().1).unwrap(),
        )
    }
}

impl DocBufOpts {
    /// No options.
    pub fn new() -> (r: Self)
        ensures
            r@ == Seq::<OptModel>::empty(),
    {
        let r = Self(Vec::new());
        assert(r@ =~= Seq::<OptModel>::empty());
        r
    }

    /// Adds an option, unless an equal one is present.
    pub fn insert(&mut self, opt: DocBufOpt)
        ensures
            final(self)@ == with_opt(old(self)@, opt@),
    {
        let n = self.0.len();
        for i in 0..n
            invariant
                n == self.0@.len(),
                self@ == old(self)@,
                forall|j: int| 0 <= j < i ==> self@[j] != opt@,
        {
            if self.0[i].eq_opt(&opt) {
                assert(self@[i as int] == opt@);
                return;
            }
        }
        assert(!self@.contains(opt@));
        self.0.push(opt);
        assert(self@ =~= old(self)@.push(opt@));
    }

    /// Whether the options contain `opt`.
    pub fn contains(&self, opt: &DocBufOpt) -> (r: bool)
        ensures
            r == self@.contains(opt@),
    {
        let n = self.0.len();
        for i in 0..n
            invariant
                n == self.0@.len(),
                forall|j: int| 0 <= j < i ==> self@[j] != opt@,
        {
            if self.0[i].eq_opt(opt) {
                assert(self@[i as int] == opt@);
                return true;
            }
        }
        false
    }

    /// The options read from the texts of an attribute's tokens: each option
    /// takes four tokens, its key, `=`, its value and a separator; quotes are
    /// dropped from keys and values.
    pub fn from_token_texts(tokens: &Vec<String>) -> (r: Self)
        requires
            forall|i: int|
                0 <= i < token_pairs(texts_of(tokens@)).len() ==> opt_of_pair(
                    #[trigger] token_pairs(texts_of(tokens@))[i].0,
                    token_pairs(texts_of(tokens@))[i].1,
                ) is Some,
        ensures
            r@ == opts_of_pairs(token_pairs(texts_of(tokens@))),
    {
        let ghost texts = texts_of(tokens@);
        let ghost pairs = token_pairs(texts);
        let num_attr = tokens.len() / 4;
        let mut opts = Self::new();
        let mut i: usize = 0;
        while i < num_attr
            invariant
                num_attr == tokens@.len() / 4,
                texts == texts_of(tokens@),
                pairs == token_pairs(texts),
                i <= num_attr,
                forall|k: int| 0 <= k < pairs.len() ==> opt_of_pair(#[trigger] pairs[k].0, pairs[k].1) is Some,
                opts@ == opts_of_pairs(pairs.subrange(0, i as int)),
            decreases num_attr - i,
        {
            let _tl = tokens.len();
            assert(4 * i + 3 < tokens@.len()) by (nonlinear_arith)
                requires
                    i < num_attr,
                    num_attr == tokens@.len() / 4,
            ;
            let key = remove_quotes(tokens[4 * i].as_str());
            let value = remove_quotes(tokens[4 * i + 2].as_str());
            assert(texts[4 * i] == tokens@[4 * i as int]@);
            assert(texts[4 * i + 2] == tokens@[4 * i + 2]@);
            assert(pairs[i as int] == (key@, value@));
            assert(pairs[i as int].0 == key@ && pairs[i as int].1 == value@);
            assert(opt_of_pair(pairs[i as int].0, pairs[i as int].1) is Some);
            let opt = DocBufOpt::from_pair(key.as_str(), value.as_str());
            opts.insert(opt);
            assert(pairs.subrange(0, i + 1).drop_last() =~= pairs.subrange(0, i as int));
            i = i + 1;
        }
        assert(pairs.subrange(0, num_attr as int) =~= pairs);
        opts
    }

    /// The namespace option (the first one added), or `default`.
    pub fn namespace(&self) -> (r: &str)
        ensures
            (exists|i: int| 0 <= i < self@.len() && self@[i] is Namespace) ==> exists|i: int|
                0 <= i < self@.len() && self@[i] == OptModel::Namespace(r@) && forall|j: int|
                    0 <= j < i ==> !(self@[j] is Namespace),
            !(exists|i: int| 0 <= i < self@.len() && self@[i] is Namespace) ==> r@
                == DEFAULT_NAMESPACE@,
    {
        let n = self.0.len();
        for i in 0..n
            invariant
                n == self.0@.len(),
                forall|j: int| 0 <= j < i ==> !(self@[j] is Namespace),
        {
            match &self.0[i] {
                DocBufOpt::Namespace(ns) => {
                    assert(self@[i as int] == OptModel::Namespace(ns@));
                    return ns.as_str();
                },
                _ => {},
            }
        }
        DEFAULT_NAMESPACE
    }

    /// Whether documents get a uuid: the `uuid` option is true, or a
    /// database configuration is given.
    pub fn uuid(&self) -> (r: bool)
        ensures
            r == exists|i: int|
                0 <= i < self@.len() && (self@[i] is DbConfig || self@[i] == OptModel::UseUuid(true)),
    {
        let n = self.0.len();
        for i in 0..n
            invariant
                n == self.0@.len(),
                forall|j: int|
                    0 <= j < i ==> !(self@[j] is DbConfig || self@[j] == OptModel::UseUuid(true)),
        {
            let hit = match &self.0[i] {
                DocBufOpt::DbConfig(_) => true,
                DocBufOpt::UseUuid(v) => *v,
                _ => false,
            };
            if hit {
                assert(self@[i as int] is DbConfig || self@[i as int] == OptModel::UseUuid(true));
                return true;
            }
        }
        false
    }

    /// The path of the database configuration (the first one added), if any.
    pub fn db_path(&self) -> (r: Option<&str>)
        ensures
            r matches Some(p) ==> exists|i: int|
                0 <= i < self@.len() && self@[i] == OptModel::DbConfig(p@) && forall|j: int|
                    0 <= j < i ==> !(self@[j] is DbConfig),
            r is None ==> forall|j: int| 0 <= j < self@.len() ==> !(self@[j] is DbConfig),
    {
        let n = self.0.len();
        for i in 0..n
            invariant
                n == self.0@.len(),
                forall|j: int| 0 <= j < i ==> !(self@[j] is DbConfig),
        {
            match &self.0[i] {
                DocBufOpt::DbConfig(p) => {
                    assert(self@[i as int] == OptModel::DbConfig(p@));
                    return Some(p.as_str());
                },
                _ => {},
            }
        }
        None
    }
}

/// Adding options never repeats one.
pub proof fn lemma_opts_no_repeats(pairs: Seq<(Seq<char>, Seq<char>)>)
    ensures
        no_repeats(opts_of_pairs(pairs)),
    decreases pairs.len(),
{
    if pairs.len() > 0 {
        lemma_opts_no_repeats(pairs.drop_last());
        let s = opts_of_pairs(pairs.drop_last());
        let o = opt_of_pair(pairs.last().0, pairs.last().1).unwrap();
        if !s.contains(o) {
            let t = s.push(o);
            assert forall|i: int, j: int| 0 <= i < j < t.len() implies t[i] != t[j] by {
                if j == s.len() {
                    assert(t[i] == s[i]);
                    assert(t[j] == o);
                } else {
                    assert(t[i] == s[i] && t[j] == s[j]);
                }
            }
        }
    }
}

/// One option of the `docbuf_rpc` attribute.
#[derive(Debug, Clone)]
pub enum RpcOption {
    /// The name of the service.
    Service(String),
}

impl RpcOption {
    /// The option for `key = value`; only `service` is supported.
    pub fn from_pair(key: &str, value: &str) -> (o: Self)
        requires
            key@ == "service"@,
        ensures
            o matches RpcOption::Service(s) && s@ == value@,
    {
        RpcOption::Service(value.to_string())
    }

    /// The text of the option.
    pub open spec fn text(self) -> Seq<char> {
        match self {
            RpcOption::Service(s) => s@,
        }
    }
}

/// The options of the `docbuf_rpc` attribute: a set of options.
#[derive(Debug, Clone)]
pub struct RpcOptions(Vec<RpcOption>);

impl View for RpcOptions {
    type V = Seq<Seq<char>>;

    closed spec fn view(&self) -> Seq<Seq<char>> {
        self.0@.map_values(|o: RpcOption| o.text())
    }
}

/// The texts of `s` with `t` added, as a set.
pub open spec fn with_text(s: Seq<Seq<char>>, t: Seq<char>) -> Seq<Seq<char>> {
    if s.contains(t) {
        s
    } else {
        s.push(t)
    }
}

impl RpcOptions {
    /// No options.
    pub fn new() -> (r: Self)
        ensures
            r@ == Seq::<Seq<char>>::empty(),
    {
        let r = Self(Vec::new());
        assert(r@ =~= Seq::<Seq<char>>::empty());
        r
    }

    /// Adds an option, unless an equal one is present.
    pub fn insert(&mut self, option: RpcOption)
        ensures
            final(self)@ == with_text(old(self)@, option.text()),
    {
        let n = self.0.len();
        for i in 0..n
            invariant
                n == self.0@.len(),
                self@ == old(self)@,
                forall|j: int| 0 <= j < i ==> self@[j] != option.text(),
        {
            let same = match (&self.0[i], &option) {
                (RpcOption::Service(a), RpcOption::Service(b)) => str_eq(a.as_str(), b.as_str()),
            };
            if same {
                assert(self@[i as int] == option.text());
                return;
            }
        }
        assert(!self@.contains(option.text()));
        self.0.push(option);
        assert(self@ =~= old(self)@.push(option.text()));
    }

    /// The name of the service (the first one added), if any.
    pub fn service(&self) -> (r: Option<&str>)
        ensures
            self@.len() == 0 ==> r is None,
            self@.len() > 0 ==> (r matches Some(s) && s@ == self@[0]),
    {
        if self.0.len() == 0 {
            None
        } else {
            match &self.0[0] {
                RpcOption::Service(s) => Some(s.as_str()),
            }
        }
    }

    /// The options read from the texts of an attribute's tokens: a key, a
    /// separator, a value, and one more separator before the next key;
    /// quotes are dropped.
    pub fn from_token_texts(tokens: &Vec<String>) -> (r: Self)
        requires
            forall|p: int|
                0 <= p && p % 4 == 0 && p + 2 < tokens@.len() ==> unquoted(#[trigger] tokens@[p]@)
                    == "service"@,
        ensures
            r@ == rpc_texts(texts_of(tokens@), 0),
    {
        let ghost texts = texts_of(tokens@);
        let mut options = Self::new();
        let mut p: usize = 0;
        assert(options@ =~= Seq::<Seq<char>>::empty());
        loop
            invariant_except_break
                texts == texts_of(tokens@),
                p % 4 == 0,
                p <= tokens@.len(),
                forall|q: int|
                    0 <= q && q % 4 == 0 && q + 2 < tokens@.len() ==> unquoted(#[trigger] tokens@[q]@)
                        == "service"@,
                rpc_texts(texts, 0) == rpc_texts_from(options@, texts, p as int),
            ensures
                rpc_texts(texts, 0) == options@,
            decreases tokens@.len() - p,
        {
            if p + 2 < tokens.len() {
                let key = remove_quotes(tokens[p].as_str());
                let value = remove_quotes(tokens[p + 2].as_str());
                assert(texts[p + 2] == tokens@[p + 2]@);
                options.insert(RpcOption::from_pair(key.as_str(), value.as_str()));
            }
            if p + 3 >= tokens.len() {
                break;
            }
            p = p + 4;
        }
        options
    }
}

/// The texts of the options read from `tokens` from position `p` on, added
/// to `acc`.
pub open spec fn rpc_texts_from(acc: Seq<Seq<char>>, tokens: Seq<Seq<char>>, p: int) -> Seq<
    Seq<char>,
>
    decreases tokens.len() - p,
{
    let acc2 = if p + 2 < tokens.len() {
        with_text(acc, unquoted(tokens[p + 2]))
    } else {
        acc
    };
    if p < 0 || p + 3 >= tokens.len() {
        acc2
    } else {
        rpc_texts_from(acc2, tokens, p + 4)
    }
}

/// The texts of the options read from `tokens`.
pub open spec fn rpc_texts(tokens: Seq<Seq<char>>, p: int) -> Seq<Seq<char>> {
    rpc_texts_from(Seq::empty(), tokens, p)
}

} // verus!
