//! Prompts: given, read or made up.
use rand::{RngExt, SeedableRng};
use vstd::prelude::*;
use vstd::string::*;
use crate::text::{decimal, push_decimal, push_size};

verus! {

broadcast use vstd::string::axiom_spec_iter;

pub const SYNTHETIC_TOKEN_LO: u32 = 100;

pub const SYNTHETIC_TOKEN_HI: u32 = 100_000;

/// How the tokens of a synthetic prompt are made.
pub open spec fn synthetic_pattern() -> Seq<char> {
    "token_id = 100 + (idx % 1000)"@
}

pub fn synthetic_pattern_text() -> (r: &'static str)
    ensures
        r@ == synthetic_pattern(),
{
    "token_id = 100 + (idx % 1000)"
}

/// A text with its line breaks written out.
pub open spec fn one_line(text: Seq<char>) -> Seq<char>
    decreases text.len(),
{
    if text.len() == 0 {
        Seq::empty()
    } else if text.last() == '\n' {
        one_line(text.drop_last()).push('\\').push('n')
    } else {
        one_line(text.drop_last()).push(text.last())
    }
}

/// The start of a text on one line, marked where it was cut.
pub open spec fn preview(text: Seq<char>, limit: nat) -> Seq<char> {
    if one_line(text).len() <= limit {
        one_line(text)
    } else {
        one_line(text).take(limit as int) + "..."@
    }
}

pub fn truncate_preview(text: &str, limit: usize) -> (r: String)
    ensures
        r@ == preview(text@, limit as nat),
{
    let mut line = String::new();
    assert(text@.take(0) =~= Seq::<char>::empty());
    assert(line@ =~= Seq::<char>::empty());
    for c in it: text.chars()
        invariant
            it.seq() == text@,
            line@ == one_line(text@.take(it.index() as int)),
    {
        assert(text@.take(it.index() as int + 1).drop_last() =~= text@.take(it.index() as int));
        assert(text@.take(it.index() as int + 1).last() == c);
        if c == '\n' {
            line.push('\\');
            line.push('n');
        } else {
            line.push(c);
        }
    }
    assert(text@.take(text@.len() as int) =~= text@);
    if line.as_str().unicode_len() <= limit {
        return line;
    }
    let mut cut = line.as_str().substring_char(0, limit).to_owned();
    assert(cut@ =~= one_line(text@).take(limit as int));
    cut.append("...");
    cut
}

/// The tokens of a synthetic prompt whose pattern starts `shift` places on.
pub open spec fn synthetic_tokens(len: nat, shift: nat) -> Seq<u32> {
    Seq::new(len, |i: int| ((i + shift) % 1000 + 100) as u32)
}

pub fn synthetic_prompt_tokens(len: usize) -> (tokens: Vec<u32>)
    ensures
        tokens@ == synthetic_tokens(len as nat, 0),
{
    shifted_tokens(len, 0)
}

fn shifted_tokens(len: usize, shift: usize) -> (tokens: Vec<u32>)
    requires
        len + shift <= usize::MAX,
    ensures
        tokens@ == synthetic_tokens(len as nat, shift as nat),
{
    let mut tokens: Vec<u32> = Vec::new();
    let mut i: usize = 0;
    while i < len
        invariant
            i <= len,
            len + shift <= usize::MAX,
            tokens@ == synthetic_tokens(i as nat, shift as nat),
        decreases len - i,
    {
        tokens.push(((i + shift) % 1000 + 100) as u32);
        assert(tokens@ =~= synthetic_tokens((i + 1) as nat, shift as nat));
        i = i + 1;
    }
    tokens
}

/// How far a salt moves the pattern.
pub open spec fn salt_shift(salt: usize) -> nat {
    ((salt * 7919) % (usize::MAX + 1)) as nat
}

/// A synthetic prompt that differs with its salt, so that one prompt does not find
/// the cache of another. The pattern repeats after a thousand places: salts that are
/// equal modulo a thousand give the same prompt, unless one shift wraps around.
pub fn synthetic_prompt_tokens_salted(len: usize, salt: usize) -> (tokens: Vec<u32>)
    requires
        len + salt_shift(salt) <= usize::MAX,
    ensures
        tokens@ == synthetic_tokens(len as nat, salt_shift(salt)),
{
    let shift: usize = salt.wrapping_mul(7919);
    shifted_tokens(len, shift)
}

/// How often the shift of a salt wraps around; a salt below the largest size over
/// 7919 does not.
pub open spec fn salt_wraps(salt: usize) -> int {
    salt * 7919 / (usize::MAX + 1)
}

/// Two prompts whose salts differ modulo a thousand differ in their first token,
/// whatever their lengths: neither can be served from what was cached of the other.
/// Salts that are equal modulo a thousand give the same pattern. The shifts must wrap
/// around equally often, as those of all salts do that do not wrap. The unsalted
/// prompt is the one with salt zero.
pub proof fn lemma_salts_part_prompts(a: usize, b: usize, len_a: nat, len_b: nat)
    requires
        salt_wraps(a) == salt_wraps(b),
        len_a > 0,
        len_b > 0,
    ensures
        a % 1000 != b % 1000 ==> synthetic_tokens(len_a, salt_shift(a))[0] != synthetic_tokens(
            len_b,
            salt_shift(b),
        )[0],
        a % 1000 == b % 1000 ==> synthetic_tokens(len_a, salt_shift(a)) == synthetic_tokens(
            len_a,
            salt_shift(b),
        ),
        salt_shift(0) == 0,
{
    vstd::arithmetic::div_mod::lemma_small_mod(0, (usize::MAX + 1) as nat);
    lemma_shift_difference(a, b);
    let (x, y) = (salt_shift(a), salt_shift(b));
    lemma_shift_keeps_residues(x as int, y as int, a as int, b as int);
    assert(synthetic_tokens(len_a, x)[0] == x % 1000 + 100);
    assert(synthetic_tokens(len_b, y)[0] == y % 1000 + 100);
    if x % 1000 == y % 1000 {
        lemma_pattern_repeats(len_a, x, y);
    }
}

proof fn lemma_shift_difference(a: usize, b: usize)
    requires
        salt_wraps(a) == salt_wraps(b),
    ensures
        salt_shift(a) - salt_shift(b) == 7919 * (a - b),
{
    let n = usize::MAX + 1;
    vstd::arithmetic::div_mod::lemma_fundamental_div_mod(a * 7919, n);
    vstd::arithmetic::div_mod::lemma_fundamental_div_mod(b * 7919, n);
    vstd::arithmetic::div_mod::lemma_mod_bound(a * 7919, n);
    vstd::arithmetic::div_mod::lemma_mod_bound(b * 7919, n);
}

proof fn lemma_pattern_repeats(len: nat, x: nat, y: nat)
    requires
        x % 1000 == y % 1000,
    ensures
        synthetic_tokens(len, x) == synthetic_tokens(len, y),
{
    assert forall|i: int| 0 <= i < len implies #[trigger] synthetic_tokens(len, x)[i]
        == synthetic_tokens(len, y)[i] by {
        assert((i + x) % 1000 == (i + y) % 1000);
    }
    assert(synthetic_tokens(len, x) =~= synthetic_tokens(len, y));
}

/// 7919 has an inverse modulo a thousand.
proof fn lemma_shift_keeps_residues(x: int, y: int, a: int, b: int)
    requires
        x - y == 7919 * (a - b),
    ensures
        (x % 1000 == y % 1000) <==> (a % 1000 == b % 1000),
{
    let d = a - b;
    if x % 1000 == y % 1000 {
        let k = x / 1000 - y / 1000;
        assert(7919 * d == 1000 * k);
        assert(d == 1000 * (679 * k - 5377 * d));
    }
    if a % 1000 == b % 1000 {
        let k = a / 1000 - b / 1000;
        assert(d == 1000 * k);
    }
}

/// `rand::rngs::StdRng`, a seeded generator.
#[verifier::external_type_specification]
#[verifier::external_body]
pub struct ExStdRng(rand::rngs::StdRng);

/// What a generator has been through: its seed, then the bounds of each draw.
pub uninterp spec fn rng_history(rng: rand::rngs::StdRng) -> Seq<u64>;

/// What a generator with a history draws next between two bounds.
pub uninterp spec fn range_draw(history: Seq<u64>, lo: u32, hi: u32) -> u32;

/// `StdRng::seed_from_u64`: a generator that has drawn nothing yet.
#[verifier::external_body]
fn seeded_rng(seed: u64) -> (rng: rand::rngs::StdRng)
    ensures
        rng_history(rng) == seq![seed],
{
    rand::rngs::StdRng::seed_from_u64(seed)
}

/// `RngExt::random_range` over a half-open range: a value inside it, which the
/// generator's seed and its earlier draws decide.
#[verifier::external_body]
fn draw_between(rng: &mut rand::rngs::StdRng, lo: u32, hi: u32) -> (r: u32)
    requires
        lo < hi,
    ensures
        lo <= r < hi,
        r == range_draw(rng_history(*old(rng)), lo, hi),
        rng_history(*final(rng)) == rng_history(*old(rng)).push(lo as u64).push(hi as u64),
{
    rng.random_range(lo..hi)
}

/// The tokens a generator draws.
pub open spec fn drawn_tokens(history: Seq<u64>, len: nat) -> Seq<u32>
    decreases len,
{
    if len == 0 {
        Seq::empty()
    } else {
        let before = drawn_tokens(history, (len - 1) as nat);
        before.push(
            range_draw(
                history_after(history, (len - 1) as nat),
                SYNTHETIC_TOKEN_LO,
                SYNTHETIC_TOKEN_HI,
            ),
        )
    }
}

/// The history after some draws.
pub open spec fn history_after(history: Seq<u64>, draws: nat) -> Seq<u64>
    decreases draws,
{
    if draws == 0 {
        history
    } else {
        history_after(history, (draws - 1) as nat).push(SYNTHETIC_TOKEN_LO as u64).push(
            SYNTHETIC_TOKEN_HI as u64,
        )
    }
}

/// The seed of one request's prompt.
pub open spec fn request_seed(seed: u64, request_idx: usize) -> u64 {
    seed ^ (((request_idx * 0x9E37_79B9_7F4A_7C15) % 0x1_0000_0000_0000_0000) as u64)
}

/// The random prompt of a request.
pub open spec fn random_prompt(len: nat, seed: u64, request_idx: usize) -> Seq<u32> {
    drawn_tokens(seq![request_seed(seed, request_idx)], len)
}

/// A prompt of random ordinary tokens, seeded by request so that concurrent
/// requests diverge.
pub fn synthetic_random_prompt(len: usize, seed: u64, request_idx: usize) -> (tokens: Vec<u32>)
    ensures
        tokens@ == random_prompt(len as nat, seed, request_idx),
        forall|i: int|
            0 <= i < len ==> SYNTHETIC_TOKEN_LO <= (#[trigger] tokens@[i]) < SYNTHETIC_TOKEN_HI,
{
    let own_seed: u64 = seed ^ (request_idx as u64).wrapping_mul(0x9E37_79B9_7F4A_7C15);
    let ghost history = seq![own_seed];
    let mut rng = seeded_rng(own_seed);
    let mut tokens: Vec<u32> = Vec::new();
    let mut i: usize = 0;
    while i < len
        invariant
            i <= len,
            rng_history(rng) == history_after(history, i as nat),
            tokens@ == drawn_tokens(history, i as nat),
            tokens@.len() == i,
            forall|k: int|
                0 <= k < i ==> SYNTHETIC_TOKEN_LO <= (#[trigger] tokens@[k]) < SYNTHETIC_TOKEN_HI,
        decreases len - i,
    {
        tokens.push(draw_between(&mut rng, SYNTHETIC_TOKEN_LO, SYNTHETIC_TOKEN_HI));
        i = i + 1;
    }
    tokens
}

/// What a prompt was made from.
pub struct PromptDescriptor {
    pub source: String,
    pub prompt_tokens: usize,
    pub prompt_preview: Option<String>,
}

pub struct PromptSpec {
    pub descriptor: PromptDescriptor,
    pub tokens: Vec<u32>,
}

/// Where the prompt comes from, as the caller asked.
pub struct PromptInputArgs {
    pub prompt: Option<String>,
    pub prompt_file: Option<String>,
    pub prompt_len: Option<usize>,
}

/// Where the prompt comes from.
pub enum PromptChoice {
    Text(String),
    File(String),
    Synthetic(usize),
}

/// A synthetic prompt without tokens.
#[derive(Clone, Copy, Debug, PartialEq, Eq, Structural)]
pub struct EmptyPrompt;

impl EmptyPrompt {
    pub fn message(&self) -> (r: &'static str)
        ensures
            r@ == "--prompt-len must be > 0"@,
    {
        "--prompt-len must be > 0"
    }
}

/// At most one source is asked for.
pub open spec fn one_source(args: PromptInputArgs) -> bool {
    &&& !(args.prompt is Some && args.prompt_file is Some)
    &&& !(args.prompt is Some && args.prompt_len is Some)
    &&& !(args.prompt_file is Some && args.prompt_len is Some)
}

/// Which source to use: the one asked for, else the default text, else a prompt of
/// the default length.
pub fn resolve_prompt_input(
    args: &PromptInputArgs,
    default_text: Option<&'static str>,
    default_prompt_len: Option<usize>,
) -> (r: Result<PromptChoice, EmptyPrompt>)
    requires
        one_source(*args),
        args.prompt is Some || args.prompt_file is Some || args.prompt_len is Some || default_text
            is Some || default_prompt_len is Some,
    ensures
        match (args.prompt, args.prompt_file, args.prompt_len) {
            (Some(prompt), _, _) => r matches Ok(PromptChoice::Text(text)) && text@ == prompt@,
            (None, Some(path), _) => r matches Ok(PromptChoice::File(file)) && file@ == path@,
            (None, None, Some(len)) => if len == 0 {
                r matches Err(_)
            } else {
                r matches Ok(PromptChoice::Synthetic(n)) && n == len
            },
            (None, None, None) => match default_text {
                Some(prompt) => r matches Ok(PromptChoice::Text(text)) && text@ == prompt@,
                None => r matches Ok(PromptChoice::Synthetic(n)) && Some(n) == default_prompt_len,
            },
        },
{
    if let Some(prompt) = &args.prompt {
        return Ok(PromptChoice::Text(String::from_str(prompt.as_str())));
    }
    if let Some(path) = &args.prompt_file {
        return Ok(PromptChoice::File(String::from_str(path.as_str())));
    }
    if let Some(len) = args.prompt_len {
        if len == 0 {
            return Err(EmptyPrompt);
        }
        return Ok(PromptChoice::Synthetic(len));
    }
    if let Some(prompt) = default_text {
        return Ok(PromptChoice::Text(String::from_str(prompt)));
    }
    match default_prompt_len {
        Some(len) => Ok(PromptChoice::Synthetic(len)),
        None => Err(EmptyPrompt),
    }
}

/// Characters of a prompt that a report shows.
pub const PREVIEW_LIMIT: usize = 96;

/// A prompt from a text and its tokens.
pub fn text_prompt(text: &str, tokens: Vec<u32>) -> (r: PromptSpec)
    ensures
        r.descriptor.source@ == "text"@,
        r.descriptor.prompt_tokens == tokens@.len(),
        r.descriptor.prompt_preview matches Some(shown) && shown@ == preview(
            text@,
            PREVIEW_LIMIT as nat,
        ),
        r.tokens == tokens,
{
    PromptSpec {
        descriptor: PromptDescriptor {
            source: String::from_str("text"),
            prompt_tokens: tokens.len(),
            prompt_preview: Some(truncate_preview(text, PREVIEW_LIMIT)),
        },
        tokens,
    }
}

/// A prompt from a file's text and its tokens.
pub fn file_prompt(path: &str, text: &str, tokens: Vec<u32>) -> (r: PromptSpec)
    ensures
        r.descriptor.source@ == "file:"@ + path@,
        r.descriptor.prompt_tokens == tokens@.len(),
        r.descriptor.prompt_preview matches Some(shown) && shown@ == preview(
            text@,
            PREVIEW_LIMIT as nat,
        ),
        r.tokens == tokens,
{
    let mut source = String::from_str("file:");
    source.append(path);
    PromptSpec {
        descriptor: PromptDescriptor {
            source,
            prompt_tokens: tokens.len(),
            prompt_preview: Some(truncate_preview(text, PREVIEW_LIMIT)),
        },
        tokens,
    }
}

/// A prompt of synthetic tokens.
pub fn synthetic_prompt(len: usize) -> (r: PromptSpec)
    ensures
        r.descriptor.source@ == "synthetic:"@ + synthetic_pattern(),
        r.descriptor.prompt_tokens == len,
        r.descriptor.prompt_preview is None,
        r.tokens@ == synthetic_tokens(len as nat, 0),
{
    let mut source = String::from_str("synthetic:");
    source.append(synthetic_pattern_text());
    PromptSpec {
        descriptor: PromptDescriptor { source, prompt_tokens: len, prompt_preview: None },
        tokens: synthetic_prompt_tokens(len),
    }
}

/// How many different prompts a batch gets: none asked for means one each.
pub open spec fn distinct_of(distinct_prompts: nat, concurrency: nat) -> nat {
    if distinct_prompts == 0 || distinct_prompts > concurrency {
        concurrency
    } else {
        distinct_prompts
    }
}

pub fn distinct_count(distinct_prompts: usize, concurrency: usize) -> (r: usize)
    ensures
        r == distinct_of(distinct_prompts as nat, concurrency as nat),
{
    if distinct_prompts == 0 || distinct_prompts > concurrency {
        concurrency
    } else {
        distinct_prompts
    }
}

/// How random prompts are described.
pub fn random_source(seed: u64, distinct: usize, concurrency: usize) -> (s: String)
    ensures
        s@ == "synthetic-random["@ + decimal(SYNTHETIC_TOKEN_LO as nat) + ".."@ + decimal(
            SYNTHETIC_TOKEN_HI as nat,
        ) + ") seed="@ + decimal(seed as nat) + " distinct="@ + decimal(distinct as nat) + "/"@
            + decimal(concurrency as nat),
{
    let mut s = String::from_str("synthetic-random[");
    push_decimal(&mut s, SYNTHETIC_TOKEN_LO as u64);
    s.append("..");
    push_decimal(&mut s, SYNTHETIC_TOKEN_HI as u64);
    s.append(") seed=");
    push_decimal(&mut s, seed);
    s.append(" distinct=");
    push_size(&mut s, distinct);
    s.append("/");
    push_size(&mut s, concurrency);
    s
}

/// The prompts of a batch of made-up requests: the different prompts in turn.
pub fn random_prompts(len: usize, seed: u64, distinct: usize, concurrency: usize) -> (prompts: Vec<
    Vec<u32>,
>)
    requires
        concurrency > 0 ==> distinct > 0,
    ensures
        prompts@.len() == concurrency,
        forall|i: int|
            0 <= i < concurrency ==> (#[trigger] prompts@[i])@ == random_prompt(
                len as nat,
                seed,
                (i % distinct as int) as usize,
            ),
{
    let mut prompts: Vec<Vec<u32>> = Vec::new();
    let mut i: usize = 0;
    while i < concurrency
        invariant
            i <= concurrency,
            concurrency > 0 ==> distinct > 0,
            prompts@.len() == i,
            forall|k: int|
                0 <= k < i ==> (#[trigger] prompts@[k])@ == random_prompt(
                    len as nat,
                    seed,
                    (k % distinct as int) as usize,
                ),
        decreases concurrency - i,
    {
        prompts.push(synthetic_random_prompt(len, seed, i % distinct));
        i = i + 1;
    }
    prompts
}

/// One prompt for every request of a batch.
pub fn repeated_prompts(tokens: &Vec<u32>, concurrency: usize) -> (prompts: Vec<Vec<u32>>)
    ensures
        prompts@.len() == concurrency,
        forall|i: int| 0 <= i < concurrency ==> (#[trigger] prompts@[i])@ == tokens@,
{
    let mut prompts: Vec<Vec<u32>> = Vec::new();
    let mut i: usize = 0;
    while i < concurrency
        invariant
            i <= concurrency,
            prompts@.len() == i,
            forall|k: int| 0 <= k < i ==> (#[trigger] prompts@[k])@ == tokens@,
        decreases concurrency - i,
    {
        let copy = tokens.clone();
        assert(copy@ =~= tokens@);
        prompts.push(copy);
        i = i + 1;
    }
    prompts
}

/// A text on one line has no line break. Line breaks are written out and nothing else
/// changes, piece by piece.
pub proof fn lemma_one_line_writes_out_line_breaks(a: Seq<char>, b: Seq<char>, c: char)
    ensures
        forall|i: int| 0 <= i < one_line(a).len() ==> #[trigger] one_line(a)[i] != '\n',
        one_line(a + b) == one_line(a) + one_line(b),
        c != '\n' ==> one_line(seq![c]) == seq![c],
        one_line(seq!['\n']) == "\\n"@,
    decreases a.len() + b.len(),
{
    reveal_with_fuel(one_line, 2);
    reveal_strlit("\\n");
    assert(seq![c].drop_last() =~= Seq::<char>::empty());
    assert(seq!['\n'].drop_last() =~= Seq::<char>::empty());
    assert(one_line(seq!['\n']) =~= "\\n"@);
    if c != '\n' {
        assert(one_line(seq![c]) =~= seq![c]);
    }
    if a.len() > 0 {
        lemma_one_line_writes_out_line_breaks(a.drop_last(), Seq::empty(), c);
    }
    if b.len() == 0 {
        assert(a + b =~= a);
        assert(one_line(a) + one_line(b) =~= one_line(a));
    } else {
        lemma_one_line_writes_out_line_breaks(a, b.drop_last(), c);
        assert((a + b).drop_last() =~= a + b.drop_last());
        assert(one_line(a + b) =~= one_line(a) + one_line(b));
    }
}

/// A preview is the text on one line where that is short enough. Any other is cut to the
/// limit and marked.
pub proof fn lemma_preview_is_a_start(text: Seq<char>, limit: nat)
    ensures
        ({
            let shown = preview(text, limit);
            let line = one_line(text);
            &&& line.len() <= limit ==> shown == line
            &&& line.len() > limit ==> shown.len() == limit + 3 && shown.take(limit as int)
                == line.take(limit as int) && shown.skip(limit as int) == "..."@
        }),
{
    reveal_strlit("...");
    let line = one_line(text);
    if line.len() > limit {
        let shown = preview(text, limit);
        assert(shown.take(limit as int) =~= line.take(limit as int));
        assert(shown.skip(limit as int) =~= "..."@);
    }
}

/// The tokens of a synthetic prompt count up from a hundred and start again after a
/// thousand; a shift starts them later, and a longer prompt goes on with the same ones.
pub proof fn lemma_synthetic_tokens_count_up(len: nat, shift: nat, more: nat, i: int)
    requires
        0 <= i < len,
    ensures
        ({
            let tokens = synthetic_tokens(len, shift);
            &&& tokens.len() == len
            &&& 100 <= tokens[i] < 1100
            &&& i + 1 < len ==> tokens[i + 1] == (if tokens[i] == 1099 {
                100
            } else {
                tokens[i] + 1
            })
            &&& shift < 1000 ==> tokens[0] == 100 + shift
            &&& tokens.is_prefix_of(synthetic_tokens(len + more, shift))
            &&& i + shift < len + more ==> tokens[i] == synthetic_tokens(len + more, 0)[i + shift]
        }),
{
    let longer = synthetic_tokens(len + more, shift);
    assert(longer.take(len as int) =~= synthetic_tokens(len, shift));
}

/// Tokens are drawn one after the other: a longer prompt begins with the tokens of a
/// shorter one, and each is what the generator draws after those before it.
pub proof fn lemma_prompts_grow_at_the_end(history: Seq<u64>, len: nat, longer: nat, i: int)
    requires
        len <= longer,
    ensures
        drawn_tokens(history, len).len() == len,
        drawn_tokens(history, len).is_prefix_of(drawn_tokens(history, longer)),
        history_after(history, len).len() == history.len() + 2 * len,
        history.is_prefix_of(history_after(history, len)),
        0 <= i < len ==> drawn_tokens(history, len)[i] == range_draw(
            history_after(history, i as nat),
            100,
            100_000,
        ),
    decreases longer,
{
    if longer > len {
        lemma_prompts_grow_at_the_end(history, len, (longer - 1) as nat, i);
        let shorter = drawn_tokens(history, (longer - 1) as nat);
        lemma_prompts_grow_at_the_end(history, (longer - 1) as nat, (longer - 1) as nat, i);
        assert(drawn_tokens(history, longer).take(len as int) =~= shorter.take(len as int));
    } else {
        assert(drawn_tokens(history, longer).take(len as int) =~= drawn_tokens(history, len)) by {
            lemma_drawn_len(history, len);
        }
        if len > 0 {
            let fewer = (len - 1) as nat;
            lemma_prompts_grow_at_the_end(history, fewer, fewer, i);
            let now = history_after(history, len);
            assert(now.take(history.len() as int) =~= history_after(history, fewer).take(
                history.len() as int,
            ));
        }
    }
}

proof fn lemma_drawn_len(history: Seq<u64>, len: nat)
    ensures
        drawn_tokens(history, len).len() == len,
    decreases len,
{
    if len > 0 {
        lemma_drawn_len(history, (len - 1) as nat);
    }
}

/// The first request draws from the seed itself, and prompts that were seeded differently
/// draw from different seeds.
pub proof fn lemma_requests_keep_seeds_apart(a: u64, b: u64, request_idx: usize)
    ensures
        request_seed(a, 0) == a,
        a != b ==> request_seed(a, request_idx) != request_seed(b, request_idx),
{
    let k = ((request_idx * 0x9E37_79B9_7F4A_7C15) % 0x1_0000_0000_0000_0000) as u64;
    assert(a ^ 0u64 == a) by (bit_vector);
    assert(a != b ==> (a ^ k) != (b ^ k)) by (bit_vector);
}

/// A batch has as many different prompts as were asked for, where that is possible, and
/// else one for each request: never more than requests, and one at least.
pub proof fn lemma_distinct_verdict(distinct_prompts: nat, concurrency: nat)
    ensures
        distinct_of(distinct_prompts, concurrency) <= concurrency,
        concurrency > 0 ==> distinct_of(distinct_prompts, concurrency) > 0,
        0 < distinct_prompts <= concurrency ==> distinct_of(distinct_prompts, concurrency)
            == distinct_prompts,
        distinct_prompts == 0 || distinct_prompts > concurrency ==> distinct_of(
            distinct_prompts,
            concurrency,
        ) == concurrency,
{
}

/// The different prompts of a batch are the first ones and come again in turn.
pub proof fn lemma_prompts_come_again_in_turn(
    len: usize,
    seed: u64,
    distinct: usize,
    concurrency: usize,
    prompts: Vec<Vec<u32>>,
    i: int,
)
    requires
        call_ensures(random_prompts, (len, seed, distinct, concurrency), prompts),
        0 < distinct,
        0 <= i < concurrency,
    ensures
        prompts@.len() == concurrency,
        i < distinct ==> prompts@[i]@ == random_prompt(len as nat, seed, i as usize),
        i + distinct < concurrency ==> prompts@[i + distinct]@ == prompts@[i]@,
{
    vstd::arithmetic::div_mod::lemma_mod_add_multiples_vanish(i, distinct as int);
    if i < distinct {
        vstd::arithmetic::div_mod::lemma_small_mod(i as nat, distinct as nat);
    }
    assert((i + distinct) % (distinct as int) == i % (distinct as int));
}

} // verus!
