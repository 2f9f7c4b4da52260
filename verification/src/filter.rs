//! The bidirectional filter pipeline.
//!
//! A `FilterChain` applies its filters in forward order on the read path
//! (client to upstream) and in reverse order on the write path (upstream to
//! client). Filters are built from named configurations through a registry;
//! unknown names and malformed configurations fail construction.

use vstd::prelude::*;

verus! {

/// How a concatenation filter places its configured bytes.
#[derive(Clone, Copy, PartialEq, Eq, Structural, Debug)]
pub enum Strategy {
    /// Add the bytes after the payload.
    Append,
    /// Add the bytes before the payload.
    Prepend,
    /// Leave the payload unchanged.
    DoNothing,
}

/// A constructed, runnable filter.
#[derive(Debug)]
pub enum FilterSpec {
    /// Concatenates configured bytes onto the payload, with one strategy for
    /// each direction.
    Concatenate { on_read: Strategy, on_write: Strategy, bytes: Vec<u8> },
    /// Passes every packet through unchanged.
    Pass,
    /// Rejects every packet.
    Reject,
}

/// The mathematical value of a filter.
#[verifier::ext_equal]
pub enum FilterV {
    Concatenate(Strategy, Strategy, Seq<u8>),
    Pass,
    Reject,
}

impl View for FilterSpec {
    type V = FilterV;

    open spec fn view(&self) -> FilterV {
        match self {
            FilterSpec::Concatenate { on_read, on_write, bytes } => FilterV::Concatenate(
                *on_read,
                *on_write,
                bytes@,
            ),
            FilterSpec::Pass => FilterV::Pass,
            FilterSpec::Reject => FilterV::Reject,
        }
    }
}

/// The payload after a concatenation strategy is applied.
pub open spec fn apply_strategy(s: Strategy, payload: Seq<u8>, bytes: Seq<u8>) -> Seq<u8> {
    match s {
        Strategy::Append => payload + bytes,
        Strategy::Prepend => bytes + payload,
        Strategy::DoNothing => payload,
    }
}

/// What one filter does to a payload on the read path: the new payload, or
/// `None` when the filter rejects the packet.
pub open spec fn read_step(f: FilterV, c: Seq<u8>) -> Option<Seq<u8>> {
    match f {
        FilterV::Concatenate(on_read, _, bytes) => Some(apply_strategy(on_read, c, bytes)),
        FilterV::Pass => Some(c),
        FilterV::Reject => None,
    }
}

/// What one filter does to a payload on the write path.
pub open spec fn write_step(f: FilterV, c: Seq<u8>) -> Option<Seq<u8>> {
    match f {
        FilterV::Concatenate(_, on_write, bytes) => Some(apply_strategy(on_write, c, bytes)),
        FilterV::Pass => Some(c),
        FilterV::Reject => None,
    }
}

/// The read path: filters applied in forward order, stopping at the first
/// rejection.
pub open spec fn chain_read(fs: Seq<FilterV>, c: Seq<u8>) -> Option<Seq<u8>>
    decreases fs.len(),
{
    if fs.len() == 0 {
        Some(c)
    } else {
        match read_step(fs[0], c) {
            Some(c2) => chain_read(fs.drop_first(), c2),
            None => None,
        }
    }
}

/// The write path: filters applied in reverse order (the first filter of the
/// chain acts last), stopping at the first rejection.
pub open spec fn chain_write(fs: Seq<FilterV>, c: Seq<u8>) -> Option<Seq<u8>>
    decreases fs.len(),
{
    if fs.len() == 0 {
        Some(c)
    } else {
        match chain_write(fs.drop_first(), c) {
            Some(c2) => write_step(fs[0], c2),
            None => None,
        }
    }
}

/// What one filter does to the full read context: it may rewrite the
/// payload or reject the packet; none of the registered filters edits the
/// endpoint list, so every one hands it through unchanged.
pub open spec fn read_step_ctx(f: FilterV, eps: Seq<crate::endpoint::EpV>, c: Seq<u8>) -> Option<
    (Seq<crate::endpoint::EpV>, Seq<u8>),
> {
    match f {
        FilterV::Concatenate(on_read, _, bytes) => Some((eps, apply_strategy(on_read, c, bytes))),
        FilterV::Pass => Some((eps, c)),
        FilterV::Reject => None,
    }
}

/// The read path over the full context: the endpoint list and the payload
/// the chain hands on for dispatch, or `None` when a filter rejects.
pub open spec fn chain_read_ctx(fs: Seq<FilterV>, eps: Seq<crate::endpoint::EpV>, c: Seq<u8>) -> Option<
    (Seq<crate::endpoint::EpV>, Seq<u8>),
>
    decreases fs.len(),
{
    if fs.len() == 0 {
        Some((eps, c))
    } else {
        match read_step_ctx(fs[0], eps, c) {
            Some((eps2, c2)) => chain_read_ctx(fs.drop_first(), eps2, c2),
            None => None,
        }
    }
}

/// The read path rejects exactly when the payload-only path does, returns
/// the same payload, and returns the endpoint list unchanged.
pub proof fn lemma_chain_read_ctx(fs: Seq<FilterV>, eps: Seq<crate::endpoint::EpV>, c: Seq<u8>)
    ensures
        chain_read_ctx(fs, eps, c) == (match chain_read(fs, c) {
            Some(c2) => Some((eps, c2)),
            None => None::<(Seq<crate::endpoint::EpV>, Seq<u8>)>,
        }),
    decreases fs.len(),
{
    if fs.len() > 0 {
        match read_step(fs[0], c) {
            Some(c2) => {
                lemma_chain_read_ctx(fs.drop_first(), eps, c2);
            },
            None => {},
        }
    }
}

/// The write steps applied in forward traversal order, for stating that the
/// write path is the read path's order reversed.
pub open spec fn write_steps_forward(fs: Seq<FilterV>, c: Seq<u8>) -> Option<Seq<u8>>
    decreases fs.len(),
{
    if fs.len() == 0 {
        Some(c)
    } else {
        match write_step(fs[0], c) {
            Some(c2) => write_steps_forward(fs.drop_first(), c2),
            None => None,
        }
    }
}

proof fn lemma_write_steps_forward_snoc(fs: Seq<FilterV>, g: FilterV, c: Seq<u8>)
    ensures
        write_steps_forward(fs.push(g), c) == (match write_steps_forward(fs, c) {
            Some(c2) => write_step(g, c2),
            None => None,
        }),
    decreases fs.len(),
{
    if fs.len() == 0 {
        assert(fs.push(g).drop_first() =~= fs);
        assert(fs.push(g)[0] == g);
        match write_step(g, c) {
            Some(c2) => {
                assert(write_steps_forward(fs, c2) == Some(c2));
            },
            None => {},
        }
    } else {
        assert(fs.push(g).drop_first() =~= fs.drop_first().push(g));
        assert(fs.push(g)[0] == fs[0]);
        match write_step(fs[0], c) {
            Some(c2) => {
                lemma_write_steps_forward_snoc(fs.drop_first(), g, c2);
            },
            None => {},
        }
    }
}

/// The write path traverses the chain in the reverse of the read path's
/// order: applying the chain's write steps backwards is the same as applying
/// the reversed chain's write steps forwards.
pub proof fn lemma_write_path_is_reversed_traversal(fs: Seq<FilterV>, c: Seq<u8>)
    ensures
        chain_write(fs, c) == write_steps_forward(fs.reverse(), c),
    decreases fs.len(),
{
    if fs.len() > 0 {
        lemma_write_path_is_reversed_traversal(fs.drop_first(), c);
        assert(fs.reverse() =~= fs.drop_first().reverse().push(fs[0]));
        lemma_write_steps_forward_snoc(fs.drop_first().reverse(), fs[0], c);
    }
}

/// A filter whose write step undoes its read step.
pub open spec fn self_inverse(f: FilterV) -> bool {
    forall|c: Seq<u8>|
        #![trigger read_step(f, c)]
        read_step(f, c) matches Some(r) ==> write_step(f, r) == Some(c)
}

/// The round trip: for a chain composed solely of self-inverse filters, the
/// write path applied to the read path's output restores the original
/// payload.
pub proof fn lemma_chain_round_trip(fs: Seq<FilterV>, x: Seq<u8>)
    requires
        forall|i: int| 0 <= i < fs.len() ==> self_inverse(#[trigger] fs[i]),
        chain_read(fs, x) is Some,
    ensures
        chain_write(fs, chain_read(fs, x).unwrap()) == Some(x),
    decreases fs.len(),
{
    if fs.len() > 0 {
        assert(read_step(fs[0], x) is Some);
        let c2 = read_step(fs[0], x).unwrap();
        assert(self_inverse(fs[0]));
        assert(write_step(fs[0], c2) == Some(x));
        assert(forall|i: int|
            0 <= i < fs.drop_first().len() ==> self_inverse(#[trigger] fs.drop_first()[i]));
        lemma_chain_round_trip(fs.drop_first(), c2);
    }
}

/// A filter's configuration as the control plane hands it over: a registry
/// name and, optionally, a concatenation configuration.
#[derive(Debug)]
pub struct Filter {
    pub name: String,
    pub config: Option<FilterConfig>,
}

/// The configuration payload a filter may carry.
#[derive(Debug)]
pub enum FilterConfig {
    /// Configuration of the concatenation filter.
    Concatenate { on_read: Strategy, on_write: Strategy, bytes: Vec<u8> },
}

/// The mathematical value of a filter configuration.
pub type FilterCfgV = (Seq<char>, Option<(Strategy, Strategy, Seq<u8>)>);

impl View for Filter {
    type V = FilterCfgV;

    open spec fn view(&self) -> FilterCfgV {
        (
            self.name@,
            match self.config {
                Some(FilterConfig::Concatenate { on_read, on_write, bytes }) => Some(
                    (on_read, on_write, bytes@),
                ),
                None => None,
            },
        )
    }
}

/// Whether a name is held by the process-wide filter registry.
pub open spec fn registry_has(name: Seq<char>) -> bool {
    ||| name == "concatenate_bytes"@
    ||| name == "pass"@
    ||| name == "drop"@
}

/// The filter a configuration constructs, or `None` when the name is not
/// registered or the configuration does not fit the named filter.
pub open spec fn filter_spec_of(cfg: FilterCfgV) -> Option<FilterV> {
    if cfg.0 == "concatenate_bytes"@ {
        match cfg.1 {
            Some((on_read, on_write, bytes)) => Some(
                FilterV::Concatenate(on_read, on_write, bytes),
            ),
            None => None,
        }
    } else if cfg.0 == "pass"@ {
        match cfg.1 {
            None => Some(FilterV::Pass),
            Some(_) => None,
        }
    } else if cfg.0 == "drop"@ {
        match cfg.1 {
            None => Some(FilterV::Reject),
            Some(_) => None,
        }
    } else {
        None
    }
}

/// Why chain construction failed.
#[derive(Debug)]
pub enum ValidationError {
    /// The named filter is not in the registry.
    NotFound(String),
    /// The named filter rejected its configuration.
    InvalidConfig(String),
}

/// Whether `name`'s view equals the view of the literal `lit`.
fn name_is(name: &String, lit: &str) -> (r: bool)
    ensures
        r == (name@ == lit@),
{
    let owned = lit.to_owned();
    *name == owned
}

impl Filter {
    /// A filter configuration from a name and an optional payload.
    pub fn new(name: String, config: Option<FilterConfig>) -> (r: Filter)
        ensures
            r@ == (name@, match config {
                Some(FilterConfig::Concatenate { on_read, on_write, bytes }) => Some(
                    (on_read, on_write, bytes@),
                ),
                None => None::<(Strategy, Strategy, Seq<u8>)>,
            }),
    {
        Filter { name, config }
    }

    /// Constructs the runnable filter this configuration names: the filter
    /// when the name is registered and the configuration fits it, the exact
    /// error otherwise.
    pub fn build(&self) -> (r: Result<FilterSpec, ValidationError>)
        ensures
            match r {
                Ok(f) => filter_spec_of(self@) == Some(f@),
                Err(e) => filter_spec_of(self@) is None && match e {
                    ValidationError::NotFound(n) => n@ == self@.0 && !registry_has(self@.0),
                    ValidationError::InvalidConfig(n) => n@ == self@.0 && registry_has(self@.0),
                },
            },
    {
        proof {
            reveal_strlit("concatenate_bytes");
            reveal_strlit("pass");
            reveal_strlit("drop");
        }
        if name_is(&self.name, "concatenate_bytes") {
            match &self.config {
                Some(FilterConfig::Concatenate { on_read, on_write, bytes }) => Ok(
                    FilterSpec::Concatenate {
                        on_read: *on_read,
                        on_write: *on_write,
                        bytes: crate::endpoint::copy_bytes(bytes),
                    },
                ),
                None => Err(ValidationError::InvalidConfig(self.name.clone())),
            }
        } else if name_is(&self.name, "pass") {
            match &self.config {
                None => Ok(FilterSpec::Pass),
                Some(_) => Err(ValidationError::InvalidConfig(self.name.clone())),
            }
        } else if name_is(&self.name, "drop") {
            match &self.config {
                None => Ok(FilterSpec::Reject),
                Some(_) => Err(ValidationError::InvalidConfig(self.name.clone())),
            }
        } else {
            Err(ValidationError::NotFound(self.name.clone()))
        }
    }
}

impl Clone for Filter {
    /// A value-equal copy of the configuration.
    fn clone(&self) -> (r: Self)
        ensures
            r@ == self@,
    {
        Filter {
            name: self.name.clone(),
            config: match &self.config {
                Some(FilterConfig::Concatenate { on_read, on_write, bytes }) => Some(
                    FilterConfig::Concatenate {
                        on_read: *on_read,
                        on_write: *on_write,
                        bytes: crate::endpoint::copy_bytes(bytes),
                    },
                ),
                None => None,
            },
        }
    }
}

/// The first configuration of `fs` that constructs no filter, if any.
pub open spec fn chain_error(fs: Seq<FilterCfgV>) -> Option<FilterCfgV>
    decreases fs.len(),
{
    if fs.len() == 0 {
        None
    } else if filter_spec_of(fs[0]) is None {
        Some(fs[0])
    } else {
        chain_error(fs.drop_first())
    }
}

/// The filters a fully valid configuration sequence constructs.
pub open spec fn chain_of(fs: Seq<FilterCfgV>) -> Seq<FilterV> {
    fs.map_values(|c: FilterCfgV| filter_spec_of(c).unwrap())
}

proof fn lemma_chain_error_at(fs: Seq<FilterCfgV>, i: int)
    requires
        0 <= i < fs.len(),
        forall|j: int| 0 <= j < i ==> filter_spec_of(#[trigger] fs[j]) is Some,
        filter_spec_of(fs[i]) is None,
    ensures
        chain_error(fs) == Some(fs[i]),
    decreases i,
{
    if i > 0 {
        assert(filter_spec_of(fs[0]) is Some);
        assert(fs.drop_first()[i - 1] == fs[i]);
        assert forall|j: int|
            0 <= j < i - 1 implies filter_spec_of(#[trigger] fs.drop_first()[j]) is Some by {
            assert(fs.drop_first()[j] == fs[j + 1]);
        }
        lemma_chain_error_at(fs.drop_first(), i - 1);
    }
}

proof fn lemma_chain_error_none(fs: Seq<FilterCfgV>)
    requires
        forall|j: int| 0 <= j < fs.len() ==> filter_spec_of(#[trigger] fs[j]) is Some,
    ensures
        chain_error(fs) is None,
    decreases fs.len(),
{
    if fs.len() > 0 {
        assert forall|j: int|
            0 <= j < fs.drop_first().len() implies filter_spec_of(
            #[trigger] fs.drop_first()[j],
        ) is Some by {
            assert(fs.drop_first()[j] == fs[j + 1]);
        }
        lemma_chain_error_none(fs.drop_first());
    }
}

/// An ordered filter pipeline.
#[derive(Debug)]
pub struct FilterChain {
    filters: Vec<FilterSpec>,
}

impl View for FilterChain {
    type V = Seq<FilterV>;

    closed spec fn view(&self) -> Seq<FilterV> {
        self.filters@.map_values(|f: FilterSpec| f@)
    }
}

/// `a` followed by the bytes of `b`.
fn concat_bytes(a: Vec<u8>, b: &Vec<u8>) -> (r: Vec<u8>)
    ensures
        r@ == a@ + b@,
{
    let ghost av = a@;
    let mut out = a;
    let n = b.len();
    let mut i: usize = 0;
    while i < n
        invariant
            n == b.len(),
            0 <= i <= n,
            out@ == av + b@.take(i as int),
        decreases n - i,
    {
        out.push(b[i]);
        proof {
            assert(out@ =~= av + b@.take(i + 1 as int));
        }
        i += 1;
    }
    proof {
        assert(av + b@.take(n as int) =~= av + b@);
    }
    out
}

impl FilterSpec {
    /// Applies the filter's read step to an owned payload.
    pub fn read(&self, contents: Vec<u8>) -> (r: Option<Vec<u8>>)
        ensures
            match r {
                Some(c) => read_step(self@, contents@) == Some(c@),
                None => read_step(self@, contents@) is None,
            },
    {
        match self {
            FilterSpec::Concatenate { on_read, on_write: _, bytes } => Some(
                apply_strategy_exec(*on_read, contents, bytes),
            ),
            FilterSpec::Pass => Some(contents),
            FilterSpec::Reject => None,
        }
    }

    /// Applies the filter's write step to an owned payload.
    pub fn write(&self, contents: Vec<u8>) -> (r: Option<Vec<u8>>)
        ensures
            match r {
                Some(c) => write_step(self@, contents@) == Some(c@),
                None => write_step(self@, contents@) is None,
            },
    {
        match self {
            FilterSpec::Concatenate { on_read: _, on_write, bytes } => Some(
                apply_strategy_exec(*on_write, contents, bytes),
            ),
            FilterSpec::Pass => Some(contents),
            FilterSpec::Reject => None,
        }
    }
}

impl FilterSpec {
    /// Executable value equality of constructed filters.
    pub fn same(&self, other: &FilterSpec) -> (r: bool)
        ensures
            r == (self@ == other@),
    {
        match (self, other) {
            (
                FilterSpec::Concatenate { on_read: r1, on_write: w1, bytes: b1 },
                FilterSpec::Concatenate { on_read: r2, on_write: w2, bytes: b2 },
            ) => *r1 == *r2 && *w1 == *w2 && crate::endpoint::bytes_eq(b1, b2),
            (FilterSpec::Pass, FilterSpec::Pass) => true,
            (FilterSpec::Reject, FilterSpec::Reject) => true,
            _ => false,
        }
    }
}

impl FilterChain {
    /// Executable value equality of chains, filter by filter in order.
    pub fn same(&self, other: &FilterChain) -> (r: bool)
        ensures
            r == (self@ == other@),
    {
        if self.filters.len() != other.filters.len() {
            assert(self@.len() != other@.len());
            return false;
        }
        let n = self.filters.len();
        let mut i: usize = 0;
        while i < n
            invariant
                n == self.filters.len() == other.filters.len(),
                0 <= i <= n,
                forall|k: int| 0 <= k < i ==> self@[k] == other@[k],
            decreases n - i,
        {
            if !self.filters[i].same(&other.filters[i]) {
                assert(self@[i as int] != other@[i as int]);
                return false;
            }
            i += 1;
        }
        proof {
            assert(self@ =~= other@);
        }
        true
    }
}

/// Applies a concatenation strategy to an owned payload.
fn apply_strategy_exec(s: Strategy, payload: Vec<u8>, bytes: &Vec<u8>) -> (r: Vec<u8>)
    ensures
        r@ == apply_strategy(s, payload@, bytes@),
{
    match s {
        Strategy::Append => concat_bytes(payload, bytes),
        Strategy::Prepend => {
            let b = crate::endpoint::copy_bytes(bytes);
            concat_bytes(b, &payload)
        },
        Strategy::DoNothing => payload,
    }
}

impl FilterChain {
    /// An empty chain: both paths pass every payload through unchanged.
    pub fn empty() -> (r: FilterChain)
        ensures
            r@ == Seq::<FilterV>::empty(),
    {
        let r = FilterChain { filters: Vec::new() };
        proof {
            assert(r@ =~= Seq::<FilterV>::empty());
        }
        r
    }

    /// The number of filters in the chain.
    pub fn len(&self) -> (r: usize)
        ensures
            r == self@.len(),
    {
        self.filters.len()
    }

    /// Builds a chain from filter configurations, in order. Fails with the
    /// first configuration's error when one names an unregistered filter or
    /// carries a configuration its filter rejects; nothing is built then.
    pub fn try_from(filters: &Vec<Filter>) -> (r: Result<FilterChain, ValidationError>)
        ensures
            ({
                let cfgs = filters@.map_values(|f: Filter| f@);
                match r {
                    Ok(ch) => chain_error(cfgs) is None && ch@ == chain_of(cfgs),
                    Err(e) => chain_error(cfgs) matches Some(bad) && match e {
                        ValidationError::NotFound(n) => n@ == bad.0 && !registry_has(bad.0),
                        ValidationError::InvalidConfig(n) => n@ == bad.0 && registry_has(bad.0),
                    },
                }
            }),
    {
        let ghost cfgs = filters@.map_values(|f: Filter| f@);
        let mut out: Vec<FilterSpec> = Vec::new();
        let n = filters.len();
        let mut i: usize = 0;
        while i < n
            invariant
                n == filters.len(),
                0 <= i <= n,
                cfgs == filters@.map_values(|f: Filter| f@),
                forall|j: int| 0 <= j < i ==> filter_spec_of(#[trigger] cfgs[j]) is Some,
                out@.map_values(|f: FilterSpec| f@) == chain_of(cfgs.take(i as int)),
            decreases n - i,
        {
            match filters[i].build() {
                Ok(f) => {
                    proof {
                        assert(cfgs[i as int] == filters@[i as int]@);
                        assert(chain_of(cfgs.take(i + 1 as int)) =~= chain_of(
                            cfgs.take(i as int),
                        ).push(filter_spec_of(cfgs[i as int]).unwrap()));
                    }
                    out.push(f);
                    proof {
                        assert(out@.map_values(|f: FilterSpec| f@) =~= chain_of(
                            cfgs.take(i + 1 as int),
                        ));
                    }
                },
                Err(e) => {
                    proof {
                        lemma_chain_error_at(cfgs, i as int);
                    }
                    return Err(e);
                },
            }
            i += 1;
        }
        proof {
            lemma_chain_error_none(cfgs);
            assert(cfgs.take(n as int) =~= cfgs);
        }
        Ok(FilterChain { filters: out })
    }

    /// Runs the read path over an owned payload: every filter in forward
    /// order, `None` as soon as one rejects.
    pub fn read(&self, contents: &Vec<u8>) -> (r: Option<Vec<u8>>)
        ensures
            match r {
                Some(c) => chain_read(self@, contents@) == Some(c@),
                None => chain_read(self@, contents@) is None,
            },
    {
        let ghost orig = contents@;
        let mut cur = crate::endpoint::copy_bytes(contents);
        let n = self.filters.len();
        proof {
            assert(self@.skip(0) =~= self@);
        }
        let mut i: usize = 0;
        while i < n
            invariant
                n == self.filters.len(),
                0 <= i <= n,
                orig == contents@,
                chain_read(self@, orig) == chain_read(self@.skip(i as int), cur@),
            decreases n - i,
        {
            proof {
                assert(self@.skip(i as int)[0] == self@[i as int]);
                assert(self@.skip(i as int).drop_first() =~= self@.skip(i + 1 as int));
            }
            let ghost curv = cur@;
            match self.filters[i].read(cur) {
                Some(c) => {
                    cur = c;
                },
                None => {
                    proof {
                        assert(read_step(self@[i as int], curv) is None);
                        assert(self@.skip(i as int).len() > 0);
                        assert(curv == cur@);
                        assert(chain_read(self@.skip(i as int), curv) is None);
                        assert(chain_read(self@, orig) is None);
                    }
                    return None;
                },
            }
            i += 1;
        }
        proof {
            assert(self@.skip(n as int) =~= Seq::<FilterV>::empty());
        }
        Some(cur)
    }

    /// Runs the write path over an owned payload: every filter in reverse
    /// order, `None` as soon as one rejects.
    pub fn write(&self, contents: &Vec<u8>) -> (r: Option<Vec<u8>>)
        ensures
            match r {
                Some(c) => chain_write(self@, contents@) == Some(c@),
                None => chain_write(self@, contents@) is None,
            },
    {
        let ghost orig = contents@;
        let mut cur = crate::endpoint::copy_bytes(contents);
        let n = self.filters.len();
        proof {
            assert(self@.skip(n as int) =~= Seq::<FilterV>::empty());
        }
        let mut i: usize = n;
        while i > 0
            invariant
                n == self.filters.len(),
                0 <= i <= n,
                orig == contents@,
                chain_write(self@.skip(i as int), orig) == Some(cur@),
            decreases i,
        {
            proof {
                assert(self@.skip(i - 1 as int)[0] == self@[i - 1 as int]);
                assert(self@.skip(i - 1 as int).drop_first() =~= self@.skip(i as int));
            }
            let ghost curv = cur@;
            match self.filters[i - 1].write(cur) {
                Some(c) => {
                    cur = c;
                },
                None => {
                    proof {
                        assert(write_step(self@[i - 1 as int], curv) is None);
                        assert(chain_write(self@.skip(i - 1 as int), orig) is None);
                        lemma_chain_write_none_propagates(self@, i - 1 as int, orig);
                    }
                    return None;
                },
            }
            i -= 1;
        }
        proof {
            assert(self@.skip(0) =~= self@);
        }
        Some(cur)
    }
}

/// The configuration a constructed filter corresponds to: the inverse of
/// construction, used when the proxy describes its own chain.
pub open spec fn cfg_of_filter(f: FilterV) -> FilterCfgV {
    match f {
        FilterV::Concatenate(on_read, on_write, bytes) => (
            "concatenate_bytes"@,
            Some((on_read, on_write, bytes)),
        ),
        FilterV::Pass => ("pass"@, None),
        FilterV::Reject => ("drop"@, None),
    }
}

impl FilterChain {
    /// The chain as filter configurations, filter by filter in chain order.
    pub fn describe(&self) -> (r: Vec<Filter>)
        ensures
            r@.map_values(|f: Filter| f@) == self@.map_values(|f: FilterV| cfg_of_filter(f)),
    {
        proof {
            reveal_strlit("concatenate_bytes");
            reveal_strlit("pass");
            reveal_strlit("drop");
        }
        let mut out: Vec<Filter> = Vec::new();
        let n = self.filters.len();
        let mut i: usize = 0;
        while i < n
            invariant
                n == self.filters.len(),
                0 <= i <= n,
                out@.map_values(|f: Filter| f@) == self@.take(i as int).map_values(
                    |f: FilterV| cfg_of_filter(f),
                ),
            decreases n - i,
        {
            proof {
                reveal_strlit("concatenate_bytes");
                reveal_strlit("pass");
                reveal_strlit("drop");
            }
            let cfg = match &self.filters[i] {
                FilterSpec::Concatenate { on_read, on_write, bytes } => Filter {
                    name: "concatenate_bytes".to_owned(),
                    config: Some(
                        FilterConfig::Concatenate {
                            on_read: *on_read,
                            on_write: *on_write,
                            bytes: crate::endpoint::copy_bytes(bytes),
                        },
                    ),
                },
                FilterSpec::Pass => Filter { name: "pass".to_owned(), config: None },
                FilterSpec::Reject => Filter { name: "drop".to_owned(), config: None },
            };
            proof {
                assert(cfg@ == cfg_of_filter(self@[i as int]));
                assert(self@.take(i + 1 as int) =~= self@.take(i as int).push(self@[i as int]));
            }
            let ghost prevout = out@;
            let ghost cfgv = cfg@;
            out.push(cfg);
            proof {
                assert(out@.map_values(|f: Filter| f@) =~= prevout.map_values(
                    |f: Filter| f@,
                ).push(cfgv));
                assert(out@.map_values(|f: Filter| f@) =~= self@.take(i + 1 as int).map_values(
                    |f: FilterV| cfg_of_filter(f),
                ));
            }
            i += 1;
        }
        proof {
            assert(self@.take(n as int) =~= self@);
        }
        out
    }
}

/// If the write path of a suffix rejects, the write path of any longer
/// suffix, and of the whole chain, rejects too.
proof fn lemma_chain_write_none_propagates(fs: Seq<FilterV>, i: int, c: Seq<u8>)
    requires
        0 <= i <= fs.len(),
        chain_write(fs.skip(i), c) is None,
    ensures
        chain_write(fs, c) is None,
    decreases i,
{
    if i > 0 {
        assert(fs.skip(i - 1)[0] == fs[i - 1]);
        assert(fs.skip(i - 1).drop_first() =~= fs.skip(i));
        assert(chain_write(fs.skip(i - 1), c) is None);
        lemma_chain_write_none_propagates(fs, i - 1, c);
    } else {
        assert(fs.skip(0) =~= fs);
    }
}

impl Clone for FilterChain {
    /// A value-equal copy of the chain.
    fn clone(&self) -> (r: Self)
        ensures
            r@ == self@,
    {
        let mut filters: Vec<FilterSpec> = Vec::new();
        let n = self.filters.len();
        let mut i: usize = 0;
        while i < n
            invariant
                n == self.filters.len(),
                0 <= i <= n,
                filters@.map_values(|f: FilterSpec| f@) == self@.take(i as int),
            decreases n - i,
        {
            let c = match &self.filters[i] {
                FilterSpec::Concatenate { on_read, on_write, bytes } => FilterSpec::Concatenate {
                    on_read: *on_read,
                    on_write: *on_write,
                    bytes: crate::endpoint::copy_bytes(bytes),
                },
                FilterSpec::Pass => FilterSpec::Pass,
                FilterSpec::Reject => FilterSpec::Reject,
            };
            proof {
                assert(self@.take(i + 1 as int) =~= self@.take(i as int).push(
                    self.filters@[i as int]@,
                ));
            }
            filters.push(c);
            proof {
                assert(filters@.map_values(|f: FilterSpec| f@) =~= self@.take(i + 1 as int));
            }
            i += 1;
        }
        proof {
            assert(self@.take(n as int) =~= self@);
        }
        FilterChain { filters }
    }
}

} // verus!
