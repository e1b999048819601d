//! DeepSeek-V2-Lite: recognising its configuration, and routing tokens to the
//! ranks that own their experts.
use vstd::prelude::*;
use vstd::string::*;
use crate::engine::{EngineLoadOptions, EpBackend};
use crate::text::{decimal, push_decimal, push_size, same_text};

verus! {

pub const SUPPORTED_HIDDEN_SIZE: u64 = 2048;

pub const SUPPORTED_ROUTED_EXPERTS: u64 = 64;

/// The fields of a JSON object that hold a string.
pub uninterp spec fn json_texts(json: serde_json::Value) -> Map<Seq<char>, Seq<char>>;

/// The fields of a JSON object that hold a non-negative integer.
pub uninterp spec fn json_counts(json: serde_json::Value) -> Map<Seq<char>, u64>;

/// `serde_json::Value::get` followed by `as_str`: the text of a field, where the
/// value is an object, has the field, and the field holds a string.
#[verifier::external_body]
fn json_text(json: &serde_json::Value, key: &str) -> (r: Option<String>)
    ensures
        match r {
            Some(text) => json_texts(*json).contains_key(key@) && json_texts(*json)[key@] == text@,
            None => !json_texts(*json).contains_key(key@),
        },
{
    json.get(key).and_then(serde_json::Value::as_str).map(String::from)
}

/// `serde_json::Value::get` followed by `as_u64`: the number in a field, where the
/// value is an object, has the field, and the field holds a non-negative integer.
#[verifier::external_body]
fn json_count(json: &serde_json::Value, key: &str) -> (r: Option<u64>)
    ensures
        match r {
            Some(count) => json_counts(*json).contains_key(key@) && json_counts(*json)[key@]
                == count,
            None => !json_counts(*json).contains_key(key@),
        },
{
    json.get(key).and_then(serde_json::Value::as_u64)
}

/// A model of the family that is not the supported one.
#[derive(Clone, Copy, Debug, PartialEq, Eq, Structural)]
pub struct UnsupportedConfig {
    pub hidden_size: Option<u64>,
    pub n_routed_experts: Option<u64>,
}

/// How an optional number is shown.
pub open spec fn option_text(value: Option<u64>) -> Seq<char> {
    match value {
        Some(n) => "Some("@ + decimal(n as nat) + ")"@,
        None => "None"@,
    }
}

fn push_option(out: &mut String, value: Option<u64>)
    ensures
        final(out)@ == old(out)@ + option_text(value),
{
    let ghost before = out@;
    match value {
        Some(n) => {
            out.append("Some(");
            push_decimal(out, n);
            out.append(")");
            assert(out@ =~= before + ("Some("@ + decimal(n as nat) + ")"@));
        },
        None => {
            out.append("None");
        },
    }
}

impl UnsupportedConfig {
    pub fn message(&self) -> (s: String)
        ensures
            s@ == "unsupported DeepSeek-V2 config: DeepSeek-V2-Lite first gate expects hidden_size="@
                + decimal(SUPPORTED_HIDDEN_SIZE as nat) + " and n_routed_experts="@ + decimal(
                SUPPORTED_ROUTED_EXPERTS as nat,
            ) + ", got hidden_size="@ + option_text(self.hidden_size) + ", n_routed_experts="@
                + option_text(self.n_routed_experts),
    {
        let mut s = String::from_str(
            "unsupported DeepSeek-V2 config: DeepSeek-V2-Lite first gate expects hidden_size=",
        );
        push_decimal(&mut s, SUPPORTED_HIDDEN_SIZE);
        s.append(" and n_routed_experts=");
        push_decimal(&mut s, SUPPORTED_ROUTED_EXPERTS);
        s.append(", got hidden_size=");
        push_option(&mut s, self.hidden_size);
        s.append(", n_routed_experts=");
        push_option(&mut s, self.n_routed_experts);
        s
    }
}

/// What the fields of a configuration say: another model, the supported one, or
/// one of the family that is not supported.
pub open spec fn probe_of(
    model_type: Option<Seq<char>>,
    hidden_size: Option<u64>,
    n_routed_experts: Option<u64>,
) -> Result<bool, UnsupportedConfig> {
    if model_type != Some("deepseek_v2"@) {
        Ok(false)
    } else if n_routed_experts == Some(SUPPORTED_ROUTED_EXPERTS) && hidden_size == Some(
        SUPPORTED_HIDDEN_SIZE,
    ) {
        Ok(true)
    } else {
        Err(UnsupportedConfig { hidden_size, n_routed_experts })
    }
}

pub fn probe_config_fields(
    model_type: Option<String>,
    hidden_size: Option<u64>,
    n_routed_experts: Option<u64>,
) -> (r: Result<bool, UnsupportedConfig>)
    ensures
        r == probe_of(
            match model_type {
                Some(text) => Some(text@),
                None => None,
            },
            hidden_size,
            n_routed_experts,
        ),
{
    let model_type = match model_type {
        Some(text) => text,
        None => {
            return Ok(false);
        },
    };
    if !same_text(model_type.as_str(), "deepseek_v2") {
        return Ok(false);
    }
    let experts_match: bool = match n_routed_experts {
        Some(value) => value == SUPPORTED_ROUTED_EXPERTS,
        None => false,
    };
    let hidden_match: bool = match hidden_size {
        Some(value) => value == SUPPORTED_HIDDEN_SIZE,
        None => false,
    };
    if !(experts_match && hidden_match) {
        return Err(UnsupportedConfig { hidden_size, n_routed_experts });
    }
    Ok(true)
}

/// The field of a configuration, if it is there.
pub open spec fn text_field(json: serde_json::Value, key: Seq<char>) -> Option<Seq<char>> {
    if json_texts(json).contains_key(key) {
        Some(json_texts(json)[key])
    } else {
        None
    }
}

pub open spec fn count_field(json: serde_json::Value, key: Seq<char>) -> Option<u64> {
    if json_counts(json).contains_key(key) {
        Some(json_counts(json)[key])
    } else {
        None
    }
}

/// Whether a configuration is the supported model's.
pub fn probe_config_json(json: &serde_json::Value) -> (r: Result<bool, UnsupportedConfig>)
    ensures
        r == probe_of(
            text_field(*json, "model_type"@),
            count_field(*json, "hidden_size"@),
            count_field(*json, "n_routed_experts"@),
        ),
{
    probe_config_fields(
        json_text(json, "model_type"),
        json_count(json, "hidden_size"),
        json_count(json, "n_routed_experts"),
    )
}

/// How the server loads the model: two devices, no graph capture. A request for
/// capture is ignored, which the second value says.
pub fn launch_options(cuda_graph: bool) -> (r: (EngineLoadOptions, Option<String>))
    ensures
        !r.0.enable_cuda_graph,
        r.0.device_ordinals@ == seq![0usize, 1usize],
        r.0.parallel_config is None,
        r.0.ep_backend == EpBackend::Nccl,
        r.0.seed == 42,
        match r.1 {
            Some(warning) => cuda_graph && warning@
                == "DeepSeek V2 Lite does not support CUDA Graph; ignoring --cuda-graph=true"@,
            None => !cuda_graph,
        },
{
    let warning = if cuda_graph {
        Some(
            String::from_str(
                "DeepSeek V2 Lite does not support CUDA Graph; ignoring --cuda-graph=true",
            ),
        )
    } else {
        None
    };
    let mut device_ordinals: Vec<usize> = Vec::new();
    device_ordinals.push(0);
    device_ordinals.push(1);
    assert(device_ordinals@ =~= seq![0usize, 1usize]);
    (
        EngineLoadOptions {
            enable_cuda_graph: false,
            device_ordinals,
            parallel_config: None,
            ep_backend: EpBackend::Nccl,
            seed: 42,
        },
        warning,
    )
}

/// Which rank owns each expert, as seen from one rank.
pub struct ExpertParallelLayout {
    pub rank: usize,
    pub owners: Vec<usize>,
}

/// An expert that no rank owns.
#[derive(Clone, Copy, Debug, PartialEq, Eq, Structural)]
pub struct ExpertOutOfRange {
    pub expert: usize,
    pub experts: usize,
}

impl ExpertOutOfRange {
    pub fn message(&self) -> (s: String)
        ensures
            s@ == "expert "@ + decimal(self.expert as nat) + " is out of range for "@ + decimal(
                self.experts as nat,
            ) + " routed experts"@,
    {
        let mut s = String::from_str("expert ");
        push_size(&mut s, self.expert);
        s.append(" is out of range for ");
        push_size(&mut s, self.experts);
        s.append(" routed experts");
        s
    }
}

impl ExpertParallelLayout {
    pub fn rank(&self) -> (r: usize)
        ensures
            r == self.rank,
    {
        self.rank
    }

    pub fn owner_rank(&self, global_expert: usize) -> (r: Result<usize, ExpertOutOfRange>)
        ensures
            r == (if global_expert < self.owners@.len() {
                Ok::<usize, ExpertOutOfRange>(self.owners@[global_expert as int])
            } else {
                Err(
                    ExpertOutOfRange {
                        expert: global_expert,
                        experts: self.owners@.len() as usize,
                    },
                )
            }),
    {
        if global_expert < self.owners.len() {
            Ok(self.owners[global_expert])
        } else {
            Err(ExpertOutOfRange { expert: global_expert, experts: self.owners.len() })
        }
    }
}

/// A token's route to one expert. The weight is a float's bit pattern.
#[derive(Clone, Copy, Debug, PartialEq, Eq, Structural)]
pub struct MoeRouteEntry {
    pub token: usize,
    pub global_expert: usize,
    pub owner_rank: usize,
    pub weight: u32,
}

/// The routes of a batch, token by token, in the order the router gave them.
pub struct MoeRoutePlan {
    entries: Vec<MoeRouteEntry>,
    local_routes: usize,
    remote_routes: usize,
}

/// The routes of one token.
pub open spec fn token_entries(
    token: int,
    routes: Seq<(usize, u32)>,
    owners: Seq<usize>,
) -> Seq<MoeRouteEntry> {
    routes.map_values(
        |route: (usize, u32)|
            MoeRouteEntry {
                token: token as usize,
                global_expert: route.0,
                owner_rank: owners[route.0 as int],
                weight: route.1,
            },
    )
}

/// The routes of all tokens.
pub open spec fn all_entries(routes: Seq<Vec<(usize, u32)>>, owners: Seq<usize>) -> Seq<
    MoeRouteEntry,
>
    decreases routes.len(),
{
    if routes.len() == 0 {
        Seq::empty()
    } else {
        all_entries(routes.drop_last(), owners) + token_entries(
            routes.len() - 1,
            routes.last()@,
            owners,
        )
    }
}

/// The first expert of a token that no rank owns.
pub open spec fn token_error(routes: Seq<(usize, u32)>, experts: nat) -> Option<ExpertOutOfRange>
    decreases routes.len(),
{
    if routes.len() == 0 {
        None
    } else {
        match token_error(routes.drop_last(), experts) {
            Some(error) => Some(error),
            None => if routes.last().0 >= experts {
                Some(ExpertOutOfRange { expert: routes.last().0, experts: experts as usize })
            } else {
                None
            },
        }
    }
}

/// The first expert that no rank owns.
pub open spec fn route_error(routes: Seq<Vec<(usize, u32)>>, experts: nat) -> Option<
    ExpertOutOfRange,
>
    decreases routes.len(),
{
    if routes.len() == 0 {
        None
    } else {
        match route_error(routes.drop_last(), experts) {
            Some(error) => Some(error),
            None => token_error(routes.last()@, experts),
        }
    }
}

/// How many routes end on a rank.
pub open spec fn routes_on(entries: Seq<MoeRouteEntry>, rank: usize) -> nat
    decreases entries.len(),
{
    if entries.len() == 0 {
        0
    } else {
        routes_on(entries.drop_last(), rank) + (if entries.last().owner_rank == rank {
            1nat
        } else {
            0nat
        })
    }
}

proof fn lemma_token_error_prefix(routes: Seq<(usize, u32)>, experts: nat, n: int)
    requires
        0 <= n <= routes.len(),
        token_error(routes.take(n), experts) is Some,
    ensures
        token_error(routes, experts) == token_error(routes.take(n), experts),
    decreases routes.len() - n,
{
    if n == routes.len() {
        assert(routes.take(n) =~= routes);
    } else {
        assert(routes.take(n + 1).drop_last() =~= routes.take(n));
        lemma_token_error_prefix(routes, experts, n + 1);
    }
}

proof fn lemma_route_error_prefix(routes: Seq<Vec<(usize, u32)>>, experts: nat, n: int)
    requires
        0 <= n <= routes.len(),
        route_error(routes.take(n), experts) is Some,
    ensures
        route_error(routes, experts) == route_error(routes.take(n), experts),
    decreases routes.len() - n,
{
    if n == routes.len() {
        assert(routes.take(n) =~= routes);
    } else {
        assert(routes.take(n + 1).drop_last() =~= routes.take(n));
        lemma_route_error_prefix(routes, experts, n + 1);
    }
}

proof fn lemma_routes_on_bound(entries: Seq<MoeRouteEntry>, rank: usize)
    ensures
        routes_on(entries, rank) <= entries.len(),
    decreases entries.len(),
{
    if entries.len() > 0 {
        lemma_routes_on_bound(entries.drop_last(), rank);
    }
}

impl MoeRoutePlan {
    pub closed spec fn entry_list(self) -> Seq<MoeRouteEntry> {
        self.entries@
    }

    pub closed spec fn local(self) -> nat {
        self.local_routes as nat
    }

    pub closed spec fn remote(self) -> nat {
        self.remote_routes as nat
    }

    /// Plans the routes of a batch. Counts are as the layout's rank sees them.
    #[verifier::loop_isolation(false)]
    pub fn from_topk_routes(routes: &[Vec<(usize, u32)>], layout: &ExpertParallelLayout) -> (r:
        Result<Self, ExpertOutOfRange>)
        ensures
            match route_error(routes@, layout.owners@.len()) {
                Some(error) => r == Err::<Self, ExpertOutOfRange>(error),
                None => {
                    &&& r matches Ok(plan)
                    &&& plan.entry_list() == all_entries(routes@, layout.owners@)
                    &&& plan.local() == routes_on(plan.entry_list(), layout.rank)
                    &&& plan.local() + plan.remote() == plan.entry_list().len()
                },
            },
    {
        let ghost experts = layout.owners@.len();
        let ghost owners = layout.owners@;
        let ghost all = routes@;
        let mut entries: Vec<MoeRouteEntry> = Vec::new();
        let mut local_routes: usize = 0;
        let mut remote_routes: usize = 0;
        let mut token: usize = 0;
        assert(all.take(0) =~= Seq::<Vec<(usize, u32)>>::empty());
        while token < routes.len()
            invariant
                token <= all.len(),
                route_error(all.take(token as int), experts) is None,
                entries@ == all_entries(all.take(token as int), owners),
                local_routes == routes_on(entries@, layout.rank),
                local_routes + remote_routes == entries@.len(),
            decreases all.len() - token,
        {
            let token_routes = &routes[token];
            let ghost before = entries@;
            let ghost here = token_routes@;
            proof {
                assert(all.take(token as int + 1).drop_last() =~= all.take(token as int));
                assert(all.take(token as int + 1).last() == routes@[token as int]);
                assert(here.take(0) =~= Seq::<(usize, u32)>::empty());
                assert(before + token_entries(token as int, here.take(0), owners) =~= before);
            }
            let mut i: usize = 0;
            while i < token_routes.len()
                invariant
                    i <= here.len(),
                    token_error(here.take(i as int), experts) is None,
                    entries@ == before + token_entries(token as int, here.take(i as int), owners),
                    local_routes == routes_on(entries@, layout.rank),
                    local_routes + remote_routes == entries@.len(),
                decreases here.len() - i,
            {
                let (global_expert, weight): (usize, u32) = token_routes[i];
                let ghost earlier = entries@;
                proof {
                    assert(here.take(i as int + 1).drop_last() =~= here.take(i as int));
                    if token_error(here.take(i as int + 1), experts) is Some {
                        lemma_token_error_prefix(here, experts, i as int + 1);
                        lemma_route_error_prefix(all, experts, token as int + 1);
                    }
                }
                let owner_rank: usize = match layout.owner_rank(global_expert) {
                    Ok(owner_rank) => owner_rank,
                    Err(error) => {
                        return Err(error);
                    },
                };
                assert(entries@.len() == entries.len());
                let entry = MoeRouteEntry { token, global_expert, owner_rank, weight };
                entries.push(entry);
                assert(entries@.len() == entries.len());
                assert(entries@.drop_last() =~= earlier);
                proof {
                    lemma_routes_on_bound(entries@, layout.rank);
                    assert(token_entries(token as int, here.take(i as int + 1), owners)
                        =~= token_entries(token as int, here.take(i as int), owners).push(entry));
                }
                if owner_rank == layout.rank() {
                    local_routes = local_routes + 1;
                } else {
                    remote_routes = remote_routes + 1;
                }
                i = i + 1;
            }
            assert(here.take(here.len() as int) =~= here);
            token = token + 1;
        }
        assert(all.take(all.len() as int) =~= all);
        Ok(MoeRoutePlan { entries, local_routes, remote_routes })
    }

    pub fn entries(&self) -> (r: &[MoeRouteEntry])
        ensures
            r@ == self.entry_list(),
    {
        self.entries.as_slice()
    }

    pub fn route_count(&self) -> (r: usize)
        ensures
            r == self.entry_list().len(),
    {
        self.entries.len()
    }

    pub fn local_routes(&self) -> (r: usize)
        ensures
            r == self.local(),
    {
        self.local_routes
    }

    pub fn remote_routes(&self) -> (r: usize)
        ensures
            r == self.remote(),
    {
        self.remote_routes
    }
}

/// Routes are planned token by token: the token of an entry never falls along the
/// plan, and every entry goes to the rank that owns its expert.
pub proof fn lemma_routes_are_token_major(routes: Seq<Vec<(usize, u32)>>, owners: Seq<usize>)
    requires
        routes.len() <= usize::MAX,
    ensures
        forall|i: int|
            0 <= i < all_entries(routes, owners).len() ==> (#[trigger] all_entries(
                routes,
                owners,
            )[i]).token < routes.len() && all_entries(routes, owners)[i].owner_rank
                == owners[all_entries(routes, owners)[i].global_expert as int],
        forall|i: int, j: int|
            0 <= i < j < all_entries(routes, owners).len() ==> (#[trigger] all_entries(
                routes,
                owners,
            )[i]).token <= (#[trigger] all_entries(routes, owners)[j]).token,
    decreases routes.len(),
{
    if routes.len() > 0 {
        lemma_routes_are_token_major(routes.drop_last(), owners);
        let before = all_entries(routes.drop_last(), owners);
        let last = token_entries(routes.len() - 1, routes.last()@, owners);
        let all = all_entries(routes, owners);
        assert forall|i: int| 0 <= i < all.len() implies (#[trigger] all[i]).token < routes.len()
            && all[i].owner_rank == owners[all[i].global_expert as int] by {
            if i < before.len() {
                assert(all[i] == before[i]);
            } else {
                assert(all[i] == last[i - before.len()]);
            }
        }
        assert forall|i: int, j: int| 0 <= i < j < all.len() implies (#[trigger] all[i]).token <= (
        #[trigger] all[j]).token by {
            if j < before.len() {
                assert(all[i] == before[i]);
                assert(all[j] == before[j]);
            } else {
                assert(all[j] == last[j - before.len()]);
                if i < before.len() {
                    assert(all[i] == before[i]);
                } else {
                    assert(all[i] == last[i - before.len()]);
                }
            }
        }
    }
}

/// A configuration is the supported model's exactly when its type and both sizes are; one
/// of another type is passed over, and one of the type with other sizes is an error that
/// shows what it has.
pub proof fn lemma_probe_verdict(
    model_type: Option<Seq<char>>,
    hidden_size: Option<u64>,
    n_routed_experts: Option<u64>,
)
    ensures
        ({
            let r = probe_of(model_type, hidden_size, n_routed_experts);
            let family = model_type == Some("deepseek_v2"@);
            let sizes = hidden_size == Some(2048u64) && n_routed_experts == Some(64u64);
            &&& r == Ok::<bool, UnsupportedConfig>(true) <==> family && sizes
            &&& r == Ok::<bool, UnsupportedConfig>(false) <==> !family
            &&& r is Err <==> family && !sizes
            &&& r matches Err(e) ==> e.hidden_size == hidden_size && e.n_routed_experts
                == n_routed_experts
        }),
{
}

proof fn lemma_token_verdict(routes: Seq<(usize, u32)>, experts: nat)
    ensures
        token_error(routes, experts) is None <==> forall|k: int|
            0 <= k < routes.len() ==> (#[trigger] routes[k]).0 < experts,
    decreases routes.len(),
{
    if routes.len() > 0 {
        let head = routes.drop_last();
        let n = routes.len() - 1;
        lemma_token_verdict(head, experts);
        assert forall|k: int| 0 <= k < n implies head[k] == #[trigger] routes[k] by {}
        assert(routes[n] == routes.last());
        if token_error(head, experts) is Some {
            let k = choose|k: int| 0 <= k < head.len() && (#[trigger] head[k]).0 >= experts;
            assert(routes[k].0 >= experts);
        }
    }
}

/// Routes are planned exactly when every expert of every token has an owner. The error
/// names an expert that has none, out of as many as there are.
pub proof fn lemma_route_verdict(routes: Seq<Vec<(usize, u32)>>, experts: nat)
    ensures
        route_error(routes, experts) is None <==> forall|t: int, k: int|
            #![trigger routes[t]@[k]]
            0 <= t < routes.len() && 0 <= k < routes[t]@.len() ==> routes[t]@[k].0 < experts,
        route_error(routes, experts) matches Some(error) ==> experts <= usize::MAX ==> error.expert
            >= experts && error.experts == experts,
    decreases routes.len(),
{
    if routes.len() > 0 {
        let head = routes.drop_last();
        let n = routes.len() - 1;
        lemma_route_verdict(head, experts);
        lemma_token_verdict(routes[n]@, experts);
        lemma_token_error_names(routes[n]@, experts);
        assert forall|t: int| 0 <= t < n implies head[t] == #[trigger] routes[t] by {}
        if route_error(head, experts) is Some {
            let (t, k) = choose|t: int, k: int|
                #![trigger head[t]@[k]]
                0 <= t < head.len() && 0 <= k < head[t]@.len() && head[t]@[k].0 >= experts;
            assert(routes[t]@[k].0 >= experts);
        } else if token_error(routes[n]@, experts) is Some {
            let k = choose|k: int|
                0 <= k < routes[n]@.len() && (#[trigger] routes[n]@[k]).0 >= experts;
            assert(routes[n]@[k].0 >= experts);
        } else {
            assert forall|t: int, k: int|
                #![trigger routes[t]@[k]]
                0 <= t < routes.len() && 0 <= k < routes[t]@.len() implies routes[t]@[k].0
                < experts by {
                if t < n {
                    assert(head[t]@[k].0 < experts);
                }
            }
        }
    }
}

proof fn lemma_token_error_names(routes: Seq<(usize, u32)>, experts: nat)
    ensures
        token_error(routes, experts) matches Some(error) ==> experts <= usize::MAX ==> error.expert
            >= experts && error.experts == experts,
    decreases routes.len(),
{
    if routes.len() > 0 {
        lemma_token_error_names(routes.drop_last(), experts);
    }
}

/// No route is lost: each route of each token is planned, behind those of the tokens
/// before it and in the order the router gave, with its own expert and weight.
pub proof fn lemma_every_route_is_planned(
    routes: Seq<Vec<(usize, u32)>>,
    owners: Seq<usize>,
    t: int,
    k: int,
)
    requires
        routes.len() <= usize::MAX,
        0 <= t < routes.len(),
        0 <= k < routes[t]@.len(),
    ensures
        ({
            let before = all_entries(routes.take(t), owners).len();
            let all = all_entries(routes, owners);
            &&& before + routes[t]@.len() <= all.len()
            &&& all[before + k] == (MoeRouteEntry {
                token: t as usize,
                global_expert: routes[t]@[k].0,
                owner_rank: owners[routes[t]@[k].0 as int],
                weight: routes[t]@[k].1,
            })
        }),
    decreases routes.len(),
{
    let head = routes.drop_last();
    if t < head.len() {
        assert(head.take(t) =~= routes.take(t));
        lemma_every_route_is_planned(head, owners, t, k);
    } else {
        assert(routes.take(t) =~= head);
    }
}

/// A route counts for the rank that owns its expert, and for no other.
pub proof fn lemma_routes_count_for_their_owner(
    entries: Seq<MoeRouteEntry>,
    entry: MoeRouteEntry,
    rank: usize,
)
    ensures
        routes_on(Seq::empty(), rank) == 0,
        routes_on(entries.push(entry), rank) == routes_on(entries, rank) + (if entry.owner_rank
            == rank {
            1int
        } else {
            0int
        }),
        routes_on(entries, rank) <= entries.len(),
{
    assert(entries.push(entry).drop_last() =~= entries);
    lemma_routes_on_bound(entries, rank);
}

} // verus!
