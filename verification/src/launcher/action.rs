//! The key of a compilation: all that its result depends on.
use vstd::prelude::*;

use crate::bstr;
use crate::cache::key;
use crate::cache::key::{ActionKey, ActionKeyBuilder, KeyError, KeyField};
use crate::cache::request;
use crate::cache::request::Pair;
use crate::compiler::fingerprint::CompilerFingerprint;
use crate::compiler::gfortran::{GfortranInvocation, Invocation};
use crate::decimal;
use crate::digest;
use crate::launcher::environment;
use crate::launcher::observation::{
    DepfilePrerequisite, DepfileTarget, ExpectedArtifact, InputFile, Observation, Observed,
    ObservedRule, PreprocessorObservation,
};
use crate::upath;

verus! {

/// The version of the set of fields that make up a key.
pub const KEY_SCHEMA: &'static str = "fcache-gfortran-action-v10";

/// A field named by a text.
pub open spec fn field(name: Seq<char>, value: Seq<u8>) -> KeyField<Seq<u8>> {
    KeyField { name: bstr::utf8(name), value }
}

/// A name with a number behind it.
pub open spec fn numbered(name: Seq<u8>, index: nat) -> Seq<u8> {
    name + decimal::padded(index, 8)
}

/// A numbered field.
pub open spec fn numbered_field(name: Seq<char>, index: nat, value: Seq<u8>) -> KeyField<Seq<u8>> {
    KeyField { name: numbered(bstr::utf8(name), index), value }
}

fn numbered_name(name: &str, index: usize) -> (result: Vec<u8>)
    ensures
        result@ == numbered(bstr::utf8(name@), index as nat),
{
    let mut result = bstr::from_str(name);
    decimal::push_padded(&mut result, index as u64);
    result
}

/// A numbered field for each byte string of a list.
pub open spec fn list_fields(name: Seq<char>, values: Seq<Seq<u8>>) -> Seq<KeyField<Seq<u8>>> {
    Seq::new(values.len(), |at: int| numbered_field(name, at as nat, values[at]))
}

/// Two numbered fields for each variable.
pub open spec fn environment_fields(pairs: Seq<Pair<Seq<u8>>>) -> Seq<KeyField<Seq<u8>>>
    decreases pairs.len(),
{
    if pairs.len() == 0 {
        Seq::empty()
    } else {
        let index = (pairs.len() - 1) as nat;
        environment_fields(pairs.drop_last()) + seq![
            numbered_field("environment-name-"@, index, pairs.last().name),
            numbered_field("environment-value-"@, index, pairs.last().value),
        ]
    }
}

/// The directories seen from the working directory.
pub open spec fn seen_from(cwd: Seq<u8>, directories: Seq<Seq<u8>>) -> Seq<Seq<u8>> {
    directories.map_values(|directory: Seq<u8>| upath::joined(cwd, directory))
}

/// Three numbered fields for each input.
pub open spec fn input_fields(inputs: Seq<InputFile<Seq<u8>, Seq<u8>>>) -> Seq<KeyField<Seq<u8>>>
    decreases inputs.len(),
{
    if inputs.len() == 0 {
        Seq::empty()
    } else {
        let index = (inputs.len() - 1) as nat;
        input_fields(inputs.drop_last()) + seq![
            numbered_field("input-path-"@, index, inputs.last().path),
            numbered_field("input-digest-"@, index, inputs.last().digest),
            numbered_field("input-size-"@, index, bstr::u64_le(inputs.last().size)),
        ]
    }
}

/// The numbered fields of one output.
pub open spec fn one_output(
    output: ExpectedArtifact<Seq<char>, Seq<u8>, Seq<u8>>,
    index: nat,
) -> Seq<KeyField<Seq<u8>>> {
    seq![
        numbered_field("output-name-"@, index, bstr::utf8(output.logical_name)),
        numbered_field("output-path-"@, index, output.path),
    ] + (match output.probe_digest {
        Some(digest) => seq![numbered_field("output-probe-digest-"@, index, digest)],
        None => Seq::empty(),
    }) + (match output.probe_size {
        Some(size) => seq![numbered_field("output-probe-size-"@, index, bstr::u64_le(size))],
        None => Seq::empty(),
    })
}

/// The numbered fields of the outputs.
pub open spec fn output_fields(outputs: Seq<ExpectedArtifact<Seq<char>, Seq<u8>, Seq<u8>>>) -> Seq<
    KeyField<Seq<u8>>,
>
    decreases outputs.len(),
{
    if outputs.len() == 0 {
        Seq::empty()
    } else {
        output_fields(outputs.drop_last()) + one_output(
            outputs.last(),
            (outputs.len() - 1) as nat,
        )
    }
}

/// The two fields of a target or prerequisite: what it is, and its bytes.
pub open spec fn marked_fields(name: Seq<u8>, generated: bool, bytes: Seq<u8>) -> Seq<
    KeyField<Seq<u8>>,
> {
    seq![
        KeyField {
            name: name + bstr::utf8("-kind"@),
            value: if generated {
                bstr::utf8("generated-module"@)
            } else {
                bstr::utf8("ordinary"@)
            },
        },
        KeyField { name, value: bytes },
    ]
}

/// The two fields of a target.
pub open spec fn one_target(name: Seq<u8>, target: DepfileTarget<Seq<u8>>) -> Seq<
    KeyField<Seq<u8>>,
> {
    match target {
        DepfileTarget::Ordinary(bytes) => marked_fields(name, false, bytes),
        DepfileTarget::GeneratedModule(bytes) => marked_fields(name, true, bytes),
    }
}

/// The fields of targets, each numbered behind `name`.
pub open spec fn target_fields(name: Seq<u8>, targets: Seq<DepfileTarget<Seq<u8>>>) -> Seq<
    KeyField<Seq<u8>>,
>
    decreases targets.len(),
{
    if targets.len() == 0 {
        Seq::empty()
    } else {
        target_fields(name, targets.drop_last()) + one_target(
            numbered(name, (targets.len() - 1) as nat),
            targets.last(),
        )
    }
}

/// The two fields of a prerequisite.
pub open spec fn one_prerequisite(
    name: Seq<u8>,
    prerequisite: DepfilePrerequisite<Seq<u8>>,
) -> Seq<KeyField<Seq<u8>>> {
    match prerequisite {
        DepfilePrerequisite::Ordinary(bytes) => marked_fields(name, false, bytes),
        DepfilePrerequisite::GeneratedModule(bytes) => marked_fields(name, true, bytes),
    }
}

/// The fields of prerequisites, each numbered behind `name`.
pub open spec fn prerequisite_fields(
    name: Seq<u8>,
    prerequisites: Seq<DepfilePrerequisite<Seq<u8>>>,
) -> Seq<KeyField<Seq<u8>>>
    decreases prerequisites.len(),
{
    if prerequisites.len() == 0 {
        Seq::empty()
    } else {
        prerequisite_fields(name, prerequisites.drop_last()) + one_prerequisite(
            numbered(name, (prerequisites.len() - 1) as nat),
            prerequisites.last(),
        )
    }
}

/// A name with a number and a hyphen behind it.
pub open spec fn in_rule(name: Seq<char>, index: nat) -> Seq<u8> {
    numbered(bstr::utf8(name), index) + bstr::utf8("-"@)
}

/// The fields of one rule: how many targets, the targets, how many prerequisites, the
/// prerequisites.
#[verifier::opaque]
pub open spec fn one_rule(rule: ObservedRule, index: nat) -> Seq<KeyField<Seq<u8>>> {
    seq![
        numbered_field(
            "depfile-primary-target-count-"@,
            index,
            bstr::u64_le(rule.targets.len() as u64),
        ),
    ] + target_fields(in_rule("depfile-primary-"@, index), rule.targets) + seq![
        numbered_field(
            "depfile-primary-prerequisite-count-"@,
            index,
            bstr::u64_le(rule.prerequisites.len() as u64),
        ),
    ] + prerequisite_fields(
        in_rule("depfile-primary-prerequisite-"@, index),
        rule.prerequisites,
    )
}

/// The fields of the rules.
pub open spec fn rule_fields(rules: Seq<ObservedRule>) -> Seq<KeyField<Seq<u8>>>
    decreases rules.len(),
{
    if rules.len() == 0 {
        Seq::empty()
    } else {
        rule_fields(rules.drop_last()) + one_rule(rules.last(), (rules.len() - 1) as nat)
    }
}

/// The fields of the preprocessor observation.
pub open spec fn preprocessor_fields(value: Option<PreprocessorObservation<Seq<u8>>>) -> Seq<
    KeyField<Seq<u8>>,
> {
    match value {
        None => Seq::empty(),
        Some(observed) => seq![
            field("preprocessor-stdout-digest"@, observed.stdout_digest),
            field("preprocessor-stdout-size"@, bstr::u64_le(observed.stdout_size)),
            field("preprocessor-stderr-digest"@, observed.stderr_digest),
            field("preprocessor-stderr-size"@, bstr::u64_le(observed.stderr_size)),
            field(
                "preprocessor-automatic-lowercase"@,
                seq![
                    if observed.automatic_lowercase_source {
                        1u8
                    } else {
                        0u8
                    },
                ],
            ),
        ],
    }
}

/// The field of the module directory.
pub open spec fn module_directory_fields(cwd: Seq<u8>, module_dir: Option<Seq<u8>>) -> Seq<
    KeyField<Seq<u8>>,
> {
    match module_dir {
        None => Seq::empty(),
        Some(directory) => seq![field("module-directory"@, upath::joined(cwd, directory))],
    }
}

/// What the result of a compilation depends on.
#[verifier::ext_equal]
pub struct Action {
    pub umask: u32,
    pub compiler: Seq<u8>,
    pub compiler_digest: Seq<u8>,
    pub cwd: Seq<u8>,
    pub invocation: Invocation,
    pub environment: Seq<Pair<Seq<u8>>>,
    pub observation: Observed,
}

/// The first fields of an action.
pub open spec fn leading_fields(action: Action) -> Seq<KeyField<Seq<u8>>> {
    seq![
        field("schema"@, bstr::utf8(KEY_SCHEMA@)),
        field("umask"@, bstr::u32_le(action.umask)),
        field("compiler-digest"@, action.compiler_digest),
        field("compiler-argument"@, action.compiler),
        field("cwd"@, action.cwd),
    ]
}

/// The fields of an action, in the order in which they are hashed.
pub open spec fn action_fields(action: Action) -> Seq<KeyField<Seq<u8>>> {
    leading_fields(action) + (list_fields("argument-"@, action.invocation.original_args) + (
    environment_fields(environment::relevant(action.environment)) + (list_fields(
        "include-directory-"@,
        seen_from(action.cwd, action.invocation.include_dirs),
    ) + (module_directory_fields(action.cwd, action.invocation.module_dir) + (input_fields(
        action.observation.inputs,
    ) + (output_fields(action.observation.outputs) + (rule_fields(
        action.observation.depfile_shape.primary_rules,
    ) + (target_fields(
        bstr::utf8("depfile-dummy-"@),
        action.observation.depfile_shape.dummy_targets,
    ) + preprocessor_fields(action.observation.preprocessor)))))))))
}

fn size_bytes(size: u64) -> (bytes: Vec<u8>)
    ensures
        bytes@ == bstr::u64_le(size),
{
    let mut bytes: Vec<u8> = Vec::new();
    bstr::append_u64_le(&mut bytes, size);
    assert(bytes@ =~= bstr::u64_le(size));
    bytes
}

fn add_numbered(builder: &mut ActionKeyBuilder, name: &str, index: usize, value: &[u8])
    ensures
        final(builder)@ == old(builder)@.push(numbered_field(name@, index as nat, value@)),
{
    let name = numbered_name(name, index);
    builder.add_field(name.as_slice(), value);
}

fn add_list(builder: &mut ActionKeyBuilder, name: &str, values: &Vec<Vec<u8>>)
    ensures
        final(builder)@ == old(builder)@ + list_fields(name@, bstr::views(values@)),
{
    let ghost start = builder@;
    let ghost all = list_fields(name@, bstr::views(values@));
    let mut index: usize = 0;
    assert(start + all.take(0) =~= start);
    while index < values.len()
        invariant
            index <= values.len(),
            all == list_fields(name@, bstr::views(values@)),
            builder@ == start + all.take(index as int),
        decreases values.len() - index,
    {
        add_numbered(builder, name, index, values[index].as_slice());
        assert(builder@ =~= start + all.take(index + 1));
        index += 1;
    }
    assert(all.take(index as int) =~= all);
}

fn add_environment(builder: &mut ActionKeyBuilder, variables: &Vec<Pair>)
    ensures
        final(builder)@ == old(builder)@ + environment_fields(request::pair_views(variables@)),
{
    let ghost start = builder@;
    let ghost all = request::pair_views(variables@);
    let mut index: usize = 0;
    assert(start + environment_fields(all.take(0)) =~= start);
    while index < variables.len()
        invariant
            index <= variables.len(),
            all == request::pair_views(variables@),
            builder@ == start + environment_fields(all.take(index as int)),
        decreases variables.len() - index,
    {
        assert(all.take(index + 1).drop_last() =~= all.take(index as int));
        assert(all.take(index + 1).last() == variables@[index as int]@);
        let pair = &variables[index];
        add_numbered(builder, "environment-name-", index, pair.name.as_slice());
        add_numbered(builder, "environment-value-", index, pair.value.as_slice());
        assert(builder@ =~= start + environment_fields(all.take(index + 1)));
        index += 1;
    }
    assert(all.take(index as int) =~= all);
}

fn add_inputs(builder: &mut ActionKeyBuilder, inputs: &Vec<InputFile>)
    ensures
        final(builder)@ == old(builder)@ + input_fields(
            crate::launcher::observation::input_views(inputs@),
        ),
{
    let ghost start = builder@;
    let ghost all = crate::launcher::observation::input_views(inputs@);
    let mut index: usize = 0;
    assert(start + input_fields(all.take(0)) =~= start);
    while index < inputs.len()
        invariant
            index <= inputs.len(),
            all == crate::launcher::observation::input_views(inputs@),
            builder@ == start + input_fields(all.take(index as int)),
        decreases inputs.len() - index,
    {
        assert(all.take(index + 1).drop_last() =~= all.take(index as int));
        assert(all.take(index + 1).last() == inputs@[index as int]@);
        let input = &inputs[index];
        let size = size_bytes(input.size);
        add_numbered(builder, "input-path-", index, input.path.as_slice());
        add_numbered(builder, "input-digest-", index, input.digest.as_slice());
        add_numbered(builder, "input-size-", index, size.as_slice());
        assert(builder@ =~= start + input_fields(all.take(index + 1)));
        index += 1;
    }
    assert(all.take(index as int) =~= all);
}

fn add_output(builder: &mut ActionKeyBuilder, output: &ExpectedArtifact, index: usize)
    ensures
        final(builder)@ == old(builder)@ + one_output(output@, index as nat),
{
    let ghost start = builder@;
    add_numbered(builder, "output-name-", index, bstr::of(output.logical_name.as_str()));
    add_numbered(builder, "output-path-", index, output.path.as_slice());
    if let Some(digest) = output.probe_digest {
        add_numbered(builder, "output-probe-digest-", index, digest.as_slice());
    }
    if let Some(size) = output.probe_size {
        let bytes = size_bytes(size);
        add_numbered(builder, "output-probe-size-", index, bytes.as_slice());
    }
    assert(builder@ =~= start + one_output(output@, index as nat));
}

fn add_outputs(builder: &mut ActionKeyBuilder, outputs: &Vec<ExpectedArtifact>)
    ensures
        final(builder)@ == old(builder)@ + output_fields(
            crate::launcher::observation::output_views(outputs@),
        ),
{
    let ghost start = builder@;
    let ghost all = crate::launcher::observation::output_views(outputs@);
    let mut index: usize = 0;
    assert(start + output_fields(all.take(0)) =~= start);
    while index < outputs.len()
        invariant
            index <= outputs.len(),
            all == crate::launcher::observation::output_views(outputs@),
            builder@ == start + output_fields(all.take(index as int)),
        decreases outputs.len() - index,
    {
        assert(all.take(index + 1).drop_last() =~= all.take(index as int));
        assert(all.take(index + 1).last() == outputs@[index as int]@);
        add_output(builder, &outputs[index], index);
        assert(builder@ =~= start + output_fields(all.take(index + 1)));
        index += 1;
    }
    assert(all.take(index as int) =~= all);
}

fn add_marked(builder: &mut ActionKeyBuilder, name: &[u8], generated: bool, bytes: &[u8])
    ensures
        final(builder)@ == old(builder)@ + marked_fields(name@, generated, bytes@),
{
    let ghost start = builder@;
    let mut kind = bstr::copy(name);
    bstr::append_str(&mut kind, "-kind");
    let text = if generated {
        "generated-module"
    } else {
        "ordinary"
    };
    builder.add_field(kind.as_slice(), bstr::of(text));
    builder.add_field(name, bytes);
    assert(builder@ =~= start + marked_fields(name@, generated, bytes@));
}

fn add_depfile_target_to_key(builder: &mut ActionKeyBuilder, name: &[u8], target: &DepfileTarget)
    ensures
        final(builder)@ == old(builder)@ + one_target(name@, target@),
{
    match target {
        DepfileTarget::Ordinary(bytes) => add_marked(builder, name, false, bytes.as_slice()),
        DepfileTarget::GeneratedModule(bytes) => add_marked(builder, name, true, bytes.as_slice()),
    }
}

fn add_depfile_prerequisite_to_key(
    builder: &mut ActionKeyBuilder,
    name: &[u8],
    prerequisite: &DepfilePrerequisite,
)
    ensures
        final(builder)@ == old(builder)@ + one_prerequisite(name@, prerequisite@),
{
    match prerequisite {
        DepfilePrerequisite::Ordinary(bytes) => add_marked(builder, name, false, bytes.as_slice()),
        DepfilePrerequisite::GeneratedModule(bytes) => add_marked(
            builder,
            name,
            true,
            bytes.as_slice(),
        ),
    }
}

fn add_targets(builder: &mut ActionKeyBuilder, name: &[u8], targets: &Vec<DepfileTarget>)
    ensures
        final(builder)@ == old(builder)@ + target_fields(
            name@,
            crate::launcher::observation::target_views(targets@),
        ),
{
    let ghost start = builder@;
    let ghost all = crate::launcher::observation::target_views(targets@);
    let mut index: usize = 0;
    assert(start + target_fields(name@, all.take(0)) =~= start);
    while index < targets.len()
        invariant
            index <= targets.len(),
            all == crate::launcher::observation::target_views(targets@),
            builder@ == start + target_fields(name@, all.take(index as int)),
        decreases targets.len() - index,
    {
        assert(all.take(index + 1).drop_last() =~= all.take(index as int));
        assert(all.take(index + 1).last() == targets@[index as int]@);
        let mut numbered_name = bstr::copy(name);
        decimal::push_padded(&mut numbered_name, index as u64);
        add_depfile_target_to_key(builder, numbered_name.as_slice(), &targets[index]);
        assert(builder@ =~= start + target_fields(name@, all.take(index + 1)));
        index += 1;
    }
    assert(all.take(index as int) =~= all);
}

fn add_prerequisites(
    builder: &mut ActionKeyBuilder,
    name: &[u8],
    prerequisites: &Vec<DepfilePrerequisite>,
)
    ensures
        final(builder)@ == old(builder)@ + prerequisite_fields(
            name@,
            crate::launcher::observation::prerequisite_views(prerequisites@),
        ),
{
    let ghost start = builder@;
    let ghost all = crate::launcher::observation::prerequisite_views(prerequisites@);
    let mut index: usize = 0;
    assert(start + prerequisite_fields(name@, all.take(0)) =~= start);
    while index < prerequisites.len()
        invariant
            index <= prerequisites.len(),
            all == crate::launcher::observation::prerequisite_views(prerequisites@),
            builder@ == start + prerequisite_fields(name@, all.take(index as int)),
        decreases prerequisites.len() - index,
    {
        assert(all.take(index + 1).drop_last() =~= all.take(index as int));
        assert(all.take(index + 1).last() == prerequisites@[index as int]@);
        let mut numbered_name = bstr::copy(name);
        decimal::push_padded(&mut numbered_name, index as u64);
        add_depfile_prerequisite_to_key(builder, numbered_name.as_slice(), &prerequisites[index]);
        assert(builder@ =~= start + prerequisite_fields(name@, all.take(index + 1)));
        index += 1;
    }
    assert(all.take(index as int) =~= all);
}

fn rule_name(name: &str, index: usize) -> (result: Vec<u8>)
    ensures
        result@ == in_rule(name@, index as nat),
{
    let mut result = numbered_name(name, index);
    bstr::append_str(&mut result, "-");
    result
}

fn add_rule(
    builder: &mut ActionKeyBuilder,
    rule: &crate::launcher::observation::ObservedDepfileRule,
    index: usize,
)
    ensures
        final(builder)@ == old(builder)@ + one_rule(rule@, index as nat),
{
    let ghost start = builder@;
    let targets = size_bytes(rule.targets.len() as u64);
    add_numbered(builder, "depfile-primary-target-count-", index, targets.as_slice());
    let ghost first = builder@;
    let target_name = rule_name("depfile-primary-", index);
    add_targets(builder, target_name.as_slice(), &rule.targets);
    let prerequisites = size_bytes(rule.prerequisites.len() as u64);
    let ghost second = builder@;
    add_numbered(builder, "depfile-primary-prerequisite-count-", index, prerequisites.as_slice());
    let prerequisite_name = rule_name("depfile-primary-prerequisite-", index);
    add_prerequisites(builder, prerequisite_name.as_slice(), &rule.prerequisites);
    proof {
        reveal(one_rule);
        assert(builder@ =~= start + one_rule(rule@, index as nat));
    }
}

fn add_rules(
    builder: &mut ActionKeyBuilder,
    rules: &Vec<crate::launcher::observation::ObservedDepfileRule>,
)
    ensures
        final(builder)@ == old(builder)@ + rule_fields(
            crate::launcher::observation::rule_views(rules@),
        ),
{
    let ghost start = builder@;
    let ghost all = crate::launcher::observation::rule_views(rules@);
    let mut index: usize = 0;
    assert(start + rule_fields(all.take(0)) =~= start);
    while index < rules.len()
        invariant
            index <= rules.len(),
            all == crate::launcher::observation::rule_views(rules@),
            builder@ == start + rule_fields(all.take(index as int)),
        decreases rules.len() - index,
    {
        assert(all.take(index + 1).drop_last() =~= all.take(index as int));
        assert(all.take(index + 1).last() == rules@[index as int]@);
        add_rule(builder, &rules[index], index);
        assert(builder@ =~= start + rule_fields(all.take(index + 1)));
        index += 1;
    }
    assert(all.take(index as int) =~= all);
}

fn add_preprocessor(builder: &mut ActionKeyBuilder, value: &Option<PreprocessorObservation>)
    ensures
        final(builder)@ == old(builder)@ + preprocessor_fields(
            crate::launcher::observation::preprocessor_view(*value),
        ),
{
    let ghost start = builder@;
    if let Some(observed) = value {
        let stdout_size = size_bytes(observed.stdout_size);
        let stderr_size = size_bytes(observed.stderr_size);
        let mut automatic: Vec<u8> = Vec::new();
        automatic.push(
            if observed.automatic_lowercase_source {
                1
            } else {
                0
            },
        );
        builder.add_bytes("preprocessor-stdout-digest", observed.stdout_digest.as_slice());
        builder.add_bytes("preprocessor-stdout-size", stdout_size.as_slice());
        builder.add_bytes("preprocessor-stderr-digest", observed.stderr_digest.as_slice());
        builder.add_bytes("preprocessor-stderr-size", stderr_size.as_slice());
        builder.add_bytes("preprocessor-automatic-lowercase", automatic.as_slice());
        assert(automatic@ =~= seq![
            if observed.automatic_lowercase_source {
                1u8
            } else {
                0u8
            },
        ]);
    }
    assert(builder@ =~= start + preprocessor_fields(
        crate::launcher::observation::preprocessor_view(*value),
    ));
}

fn see_from(cwd: &[u8], directories: &Vec<Vec<u8>>) -> (seen: Vec<Vec<u8>>)
    ensures
        bstr::views(seen@) == seen_from(cwd@, bstr::views(directories@)),
{
    let ghost all = seen_from(cwd@, bstr::views(directories@));
    let mut seen: Vec<Vec<u8>> = Vec::new();
    let mut index: usize = 0;
    assert(bstr::views(seen@) =~= all.take(0));
    while index < directories.len()
        invariant
            index <= directories.len(),
            all == seen_from(cwd@, bstr::views(directories@)),
            bstr::views(seen@) == all.take(index as int),
        decreases directories.len() - index,
    {
        let directory = upath::join(cwd, directories[index].as_slice());
        proof {
            bstr::lemma_views_push(seen@, directory);
        }
        seen.push(directory);
        assert(bstr::views(seen@) =~= all.take(index + 1));
        index += 1;
    }
    assert(all.take(index as int) =~= all);
    seen
}

proof fn lemma_concat_associates(
    a: Seq<KeyField<Seq<u8>>>,
    b: Seq<KeyField<Seq<u8>>>,
    c: Seq<KeyField<Seq<u8>>>,
    d: Seq<KeyField<Seq<u8>>>,
    e: Seq<KeyField<Seq<u8>>>,
    f: Seq<KeyField<Seq<u8>>>,
    g: Seq<KeyField<Seq<u8>>>,
    h: Seq<KeyField<Seq<u8>>>,
    i: Seq<KeyField<Seq<u8>>>,
    j: Seq<KeyField<Seq<u8>>>,
)
    ensures
        a + b + c + d + e + f + g + h + i + j == a + (b + (c + (d + (e + (f + (g + (h + (i
            + j)))))))),
{
    assert(a + b + c + d + e + f + g + h + i + j =~= a + (b + (c + (d + (e + (f + (g + (h + (i
        + j)))))))));
}

/// The key of a compilation. `umask` is the file mode creation mask of the process.
pub fn build_action_key(
    compiler: &[u8],
    invocation: &GfortranInvocation,
    fingerprint: &CompilerFingerprint,
    cwd: &[u8],
    variables: &Vec<Pair>,
    observation: &Observation,
    umask: u32,
) -> (outcome: Result<ActionKey, KeyError>)
    ensures
        outcome is Ok,
        outcome->Ok_0@ == digest::blake3_digest(
            key::preimage(
                action_fields(
                    Action {
                        umask,
                        compiler: compiler@,
                        compiler_digest: fingerprint@.digest,
                        cwd: cwd@,
                        invocation: invocation@,
                        environment: request::pair_views(variables@),
                        observation: observation@,
                    },
                ),
            ),
        ),
{
    let ghost action = Action {
        umask,
        compiler: compiler@,
        compiler_digest: fingerprint@.digest,
        cwd: cwd@,
        invocation: invocation@,
        environment: request::pair_views(variables@),
        observation: observation@,
    };
    let mut builder = ActionKeyBuilder::new();
    let mask = bstr::from_u32_le(umask);
    builder.add_bytes("schema", bstr::of(KEY_SCHEMA));
    builder.add_bytes("umask", mask.as_slice());
    builder.add_bytes("compiler-digest", fingerprint.digest.as_slice());
    builder.add_os_str("compiler-argument", compiler);
    builder.add_path("cwd", cwd);
    assert(builder@ =~= leading_fields(action));
    add_list(&mut builder, "argument-", &invocation.original_args);
    let relevant = environment::relevant_environment(variables);
    add_environment(&mut builder, &relevant);
    let directories = see_from(cwd, &invocation.include_dirs);
    add_list(&mut builder, "include-directory-", &directories);
    let ghost before_module = builder@;
    if let Some(directory) = &invocation.module_dir {
        let seen = upath::join(cwd, directory.as_slice());
        builder.add_path("module-directory", seen.as_slice());
    }
    proof {
        let added = module_directory_fields(action.cwd, action.invocation.module_dir);
        assert(builder@ =~= before_module + added);
    }
    add_inputs(&mut builder, &observation.inputs);
    add_outputs(&mut builder, &observation.outputs);
    add_rules(&mut builder, &observation.depfile_shape.primary_rules);
    let dummy = bstr::from_str("depfile-dummy-");
    add_targets(&mut builder, dummy.as_slice(), &observation.depfile_shape.dummy_targets);
    add_preprocessor(&mut builder, &observation.preprocessor);
    proof {
        lemma_concat_associates(
            leading_fields(action),
            list_fields("argument-"@, action.invocation.original_args),
            environment_fields(environment::relevant(action.environment)),
            list_fields(
                "include-directory-"@,
                seen_from(action.cwd, action.invocation.include_dirs),
            ),
            module_directory_fields(action.cwd, action.invocation.module_dir),
            input_fields(action.observation.inputs),
            output_fields(action.observation.outputs),
            rule_fields(action.observation.depfile_shape.primary_rules),
            target_fields(
                bstr::utf8("depfile-dummy-"@),
                action.observation.depfile_shape.dummy_targets,
            ),
            preprocessor_fields(action.observation.preprocessor),
        );
        lemma_fields_named(action);
    }
    builder.finish()
}

/// Which group of fields a name belongs to.
pub open spec fn group(name: Seq<u8>) -> int {
    if name[0] == 0x61 {
        1
    } else if name[0] == 0x65 {
        2
    } else if name[0] == 0x69 && name[2] == 0x63 {
        3
    } else if name[0] == 0x6d {
        4
    } else if name[0] == 0x69 {
        5
    } else if name[0] == 0x6f {
        6
    } else if name[0] == 0x64 && name[8] == 0x70 {
        7
    } else if name[0] == 0x64 {
        8
    } else {
        9
    }
}

/// All names are there and belong to the groups from `low` to `high`.
spec fn grouped(fields: Seq<KeyField<Seq<u8>>>, low: int, high: int) -> bool {
    forall|at: int|
        0 <= at < fields.len() ==> (#[trigger] fields[at]).name.len() > 0 && low <= group(
            fields[at].name,
        ) <= high
}

proof fn lemma_grouped_concat(
    left: Seq<KeyField<Seq<u8>>>,
    right: Seq<KeyField<Seq<u8>>>,
    low: int,
    middle: int,
    high: int,
)
    requires
        grouped(left, low, middle),
        grouped(right, low, high),
        middle <= high,
    ensures
        grouped(left + right, low, high),
{
    let both = left + right;
    assert forall|at: int| 0 <= at < both.len() implies (#[trigger] both[at]).name.len() > 0 && low
        <= group(both[at].name) <= high by {
        if at < left.len() {
            assert(both[at] == left[at]);
        } else {
            assert(both[at] == right[at - left.len()]);
        }
    }
}

proof fn lemma_grouped_wider(
    fields: Seq<KeyField<Seq<u8>>>,
    low: int,
    high: int,
    lower: int,
    higher: int,
)
    requires
        grouped(fields, low, high),
        lower <= low,
        high <= higher,
    ensures
        grouped(fields, lower, higher),
{
}

proof fn lemma_list_names()
    ensures
        bstr::utf8("argument-"@).len() == 9,
        bstr::utf8("argument-"@)[0] == 0x61,
        bstr::utf8("environment-name-"@).len() == 17,
        bstr::utf8("environment-name-"@)[0] == 0x65,
        bstr::utf8("environment-value-"@).len() == 18,
        bstr::utf8("environment-value-"@)[0] == 0x65,
        bstr::utf8("include-directory-"@).len() == 18,
        bstr::utf8("include-directory-"@)[0] == 0x69,
        bstr::utf8("include-directory-"@)[2] == 0x63,
        bstr::utf8("module-directory"@).len() == 16,
        bstr::utf8("module-directory"@)[0] == 0x6d,
{
    reveal_strlit("argument-");
    reveal_strlit("environment-name-");
    reveal_strlit("environment-value-");
    reveal_strlit("include-directory-");
    reveal_strlit("module-directory");
    bstr::lemma_ascii("argument-"@);
    bstr::lemma_ascii("environment-name-"@);
    bstr::lemma_ascii("environment-value-"@);
    bstr::lemma_ascii("include-directory-"@);
    bstr::lemma_ascii("module-directory"@);
}

proof fn lemma_leading_names()
    ensures
        bstr::utf8("schema"@).len() == 6,
        bstr::utf8("umask"@).len() == 5,
        bstr::utf8("compiler-digest"@).len() == 15,
        bstr::utf8("compiler-argument"@).len() == 17,
        bstr::utf8("cwd"@).len() == 3,
{
    reveal_strlit("schema");
    reveal_strlit("umask");
    reveal_strlit("compiler-digest");
    reveal_strlit("compiler-argument");
    reveal_strlit("cwd");
    bstr::lemma_ascii("schema"@);
    bstr::lemma_ascii("umask"@);
    bstr::lemma_ascii("compiler-digest"@);
    bstr::lemma_ascii("compiler-argument"@);
    bstr::lemma_ascii("cwd"@);
}

proof fn lemma_file_names()
    ensures
        bstr::utf8("input-path-"@).len() == 11,
        bstr::utf8("input-path-"@)[0] == 0x69,
        bstr::utf8("input-path-"@)[2] == 0x70,
        bstr::utf8("input-digest-"@).len() == 13,
        bstr::utf8("input-digest-"@)[0] == 0x69,
        bstr::utf8("input-digest-"@)[2] == 0x70,
        bstr::utf8("input-size-"@).len() == 11,
        bstr::utf8("input-size-"@)[0] == 0x69,
        bstr::utf8("input-size-"@)[2] == 0x70,
        bstr::utf8("output-name-"@).len() == 12,
        bstr::utf8("output-name-"@)[0] == 0x6f,
        bstr::utf8("output-name-"@)[7] == 0x6e,
        bstr::utf8("output-path-"@).len() == 12,
        bstr::utf8("output-path-"@)[0] == 0x6f,
        bstr::utf8("output-path-"@)[7] == 0x70,
        bstr::utf8("output-probe-digest-"@).len() == 20,
        bstr::utf8("output-probe-digest-"@)[0] == 0x6f,
        bstr::utf8("output-probe-digest-"@)[7] == 0x70,
        bstr::utf8("output-probe-digest-"@)[13] == 0x64,
        bstr::utf8("output-probe-size-"@).len() == 18,
        bstr::utf8("output-probe-size-"@)[0] == 0x6f,
        bstr::utf8("output-probe-size-"@)[7] == 0x70,
        bstr::utf8("output-probe-size-"@)[13] == 0x73,
{
    reveal_strlit("input-path-");
    reveal_strlit("input-digest-");
    reveal_strlit("input-size-");
    reveal_strlit("output-name-");
    reveal_strlit("output-path-");
    reveal_strlit("output-probe-digest-");
    reveal_strlit("output-probe-size-");
    bstr::lemma_ascii("input-path-"@);
    bstr::lemma_ascii("input-digest-"@);
    bstr::lemma_ascii("input-size-"@);
    bstr::lemma_ascii("output-name-"@);
    bstr::lemma_ascii("output-path-"@);
    bstr::lemma_ascii("output-probe-digest-"@);
    bstr::lemma_ascii("output-probe-size-"@);
}

proof fn lemma_depfile_names()
    ensures
        bstr::utf8("depfile-primary-target-count-"@).len() == 29,
        bstr::utf8("depfile-primary-target-count-"@)[0] == 0x64,
        bstr::utf8("depfile-primary-target-count-"@)[8] == 0x70,
        bstr::utf8("depfile-primary-target-count-"@)[16] == 0x74,
        bstr::utf8("depfile-primary-"@).len() == 16,
        bstr::utf8("depfile-primary-"@)[0] == 0x64,
        bstr::utf8("depfile-primary-"@)[8] == 0x70,
        bstr::utf8("depfile-primary-prerequisite-count-"@).len() == 35,
        bstr::utf8("depfile-primary-prerequisite-count-"@)[0] == 0x64,
        bstr::utf8("depfile-primary-prerequisite-count-"@)[8] == 0x70,
        bstr::utf8("depfile-primary-prerequisite-count-"@)[16] == 0x70,
        bstr::utf8("depfile-primary-prerequisite-"@).len() == 29,
        bstr::utf8("depfile-primary-prerequisite-"@)[0] == 0x64,
        bstr::utf8("depfile-primary-prerequisite-"@)[8] == 0x70,
        bstr::utf8("depfile-primary-prerequisite-"@)[16] == 0x70,
        bstr::utf8("depfile-dummy-"@).len() == 14,
        bstr::utf8("depfile-dummy-"@)[0] == 0x64,
        bstr::utf8("depfile-dummy-"@)[8] == 0x64,
{
    reveal_strlit("depfile-primary-target-count-");
    reveal_strlit("depfile-primary-");
    reveal_strlit("depfile-primary-prerequisite-count-");
    reveal_strlit("depfile-primary-prerequisite-");
    reveal_strlit("depfile-dummy-");
    bstr::lemma_ascii("depfile-primary-target-count-"@);
    bstr::lemma_ascii("depfile-primary-"@);
    bstr::lemma_ascii("depfile-primary-prerequisite-count-"@);
    bstr::lemma_ascii("depfile-primary-prerequisite-"@);
    bstr::lemma_ascii("depfile-dummy-"@);
}

proof fn lemma_preprocessor_names()
    ensures
        bstr::utf8("preprocessor-stdout-digest"@).len() == 26,
        bstr::utf8("preprocessor-stdout-digest"@)[0] == 0x70,
        bstr::utf8("preprocessor-stdout-size"@).len() == 24,
        bstr::utf8("preprocessor-stdout-size"@)[0] == 0x70,
        bstr::utf8("preprocessor-stderr-digest"@).len() == 26,
        bstr::utf8("preprocessor-stderr-digest"@)[0] == 0x70,
        bstr::utf8("preprocessor-stderr-size"@).len() == 24,
        bstr::utf8("preprocessor-stderr-size"@)[0] == 0x70,
        bstr::utf8("preprocessor-automatic-lowercase"@).len() == 32,
        bstr::utf8("preprocessor-automatic-lowercase"@)[0] == 0x70,
{
    reveal_strlit("preprocessor-stdout-digest");
    reveal_strlit("preprocessor-stdout-size");
    reveal_strlit("preprocessor-stderr-digest");
    reveal_strlit("preprocessor-stderr-size");
    reveal_strlit("preprocessor-automatic-lowercase");
    bstr::lemma_ascii("preprocessor-stdout-digest"@);
    bstr::lemma_ascii("preprocessor-stdout-size"@);
    bstr::lemma_ascii("preprocessor-stderr-digest"@);
    bstr::lemma_ascii("preprocessor-stderr-size"@);
    bstr::lemma_ascii("preprocessor-automatic-lowercase"@);
}

proof fn lemma_kind_texts()
    ensures
        bstr::utf8("generated-module"@).len() == 16,
        bstr::utf8("ordinary"@).len() == 8,
{
    reveal_strlit("generated-module");
    reveal_strlit("ordinary");
    bstr::lemma_ascii("generated-module"@);
    bstr::lemma_ascii("ordinary"@);
}

proof fn lemma_environment_grouped(pairs: Seq<Pair<Seq<u8>>>)
    ensures
        grouped(environment_fields(pairs), 2, 2),
        environment_fields(pairs).len() == 2 * pairs.len(),
    decreases pairs.len(),
{
    if pairs.len() > 0 {
        lemma_environment_grouped(pairs.drop_last());
        lemma_list_names();
    }
}

proof fn lemma_inputs_grouped(inputs: Seq<InputFile<Seq<u8>, Seq<u8>>>)
    ensures
        grouped(input_fields(inputs), 5, 5),
        input_fields(inputs).len() == 3 * inputs.len(),
    decreases inputs.len(),
{
    if inputs.len() > 0 {
        lemma_inputs_grouped(inputs.drop_last());
        lemma_file_names();
    }
}

proof fn lemma_outputs_grouped(outputs: Seq<ExpectedArtifact<Seq<char>, Seq<u8>, Seq<u8>>>)
    ensures
        grouped(output_fields(outputs), 6, 6),
    decreases outputs.len(),
{
    if outputs.len() > 0 {
        lemma_outputs_grouped(outputs.drop_last());
        lemma_file_names();
        assert(grouped(one_output(outputs.last(), (outputs.len() - 1) as nat), 6, 6));
        lemma_grouped_concat(
            output_fields(outputs.drop_last()),
            one_output(outputs.last(), (outputs.len() - 1) as nat),
            6,
            6,
            6,
        );
    }
}

/// All names begin with `lead`.
spec fn led_by(fields: Seq<KeyField<Seq<u8>>>, lead: Seq<u8>) -> bool {
    forall|at: int|
        0 <= at < fields.len() ==> (#[trigger] fields[at]).name.len() > lead.len() && forall|
            byte: int,
        |
            0 <= byte < lead.len() ==> fields[at].name[byte] == #[trigger] lead[byte]
}

proof fn lemma_targets_led(name: Seq<u8>, targets: Seq<DepfileTarget<Seq<u8>>>)
    ensures
        led_by(target_fields(name, targets), name),
        target_fields(name, targets).len() == 2 * targets.len(),
    decreases targets.len(),
{
    if targets.len() > 0 {
        lemma_targets_led(name, targets.drop_last());
        decimal::lemma_padded((targets.len() - 1) as nat, 8);
    }
}

proof fn lemma_prerequisites_led(
    name: Seq<u8>,
    prerequisites: Seq<DepfilePrerequisite<Seq<u8>>>,
)
    ensures
        led_by(prerequisite_fields(name, prerequisites), name),
        prerequisite_fields(name, prerequisites).len() == 2 * prerequisites.len(),
    decreases prerequisites.len(),
{
    if prerequisites.len() > 0 {
        lemma_prerequisites_led(name, prerequisites.drop_last());
        decimal::lemma_padded((prerequisites.len() - 1) as nat, 8);
    }
}

/// What the byte after `depfile-primary-` is, in the parts of a rule.
proof fn lemma_rule_parts(rule: ObservedRule, index: nat)
    ensures
        grouped(one_rule(rule, index), 7, 7),
        one_rule(rule, index).len() == 2 + 2 * rule.targets.len() + 2 * rule.prerequisites.len(),
        one_rule(rule, index)[0].name[16] == 0x74,
        forall|at: int|
            1 <= at < 1 + 2 * rule.targets.len() ==> (#[trigger] one_rule(rule, index)[at]).name[16]
                != 0x74 && one_rule(rule, index)[at].name[16] != 0x70,
        forall|at: int|
            1 + 2 * rule.targets.len() <= at < one_rule(rule, index).len() ==> (
            #[trigger] one_rule(rule, index)[at]).name[16] == 0x70,
{
    reveal(one_rule);
    lemma_depfile_names();
    let target_name = in_rule("depfile-primary-"@, index);
    let prerequisite_name = in_rule("depfile-primary-prerequisite-"@, index);
    lemma_targets_led(target_name, rule.targets);
    lemma_prerequisites_led(prerequisite_name, rule.prerequisites);
    decimal::lemma_padded(index, 8);
    let targets = target_fields(target_name, rule.targets);
    let prerequisites = prerequisite_fields(prerequisite_name, rule.prerequisites);
    let digit = decimal::padded(index, 8)[0];
    assert(bstr::is_digit(digit));
    assert(target_name[16] == digit);
    assert(target_name[0] == 0x64 && target_name[8] == 0x70);
    assert(prerequisite_name[0] == 0x64 && prerequisite_name[8] == 0x70 && prerequisite_name[16]
        == 0x70);
    let all = one_rule(rule, index);
    assert forall|at: int| 1 <= at < 1 + 2 * rule.targets.len() implies (
    #[trigger] all[at]).name[16] != 0x74 && all[at].name[16] != 0x70 && all[at].name.len() > 0
        && group(all[at].name) == 7 by {
        assert(all[at] == targets[at - 1]);
        assert(targets[at - 1].name[16] == target_name[16]);
        assert(targets[at - 1].name[0] == target_name[0]);
        assert(targets[at - 1].name[8] == target_name[8]);
    }
    let start = 1 + 2 * rule.targets.len();
    assert forall|at: int| start <= at < all.len() implies (#[trigger] all[at]).name[16] == 0x70
        && all[at].name.len() > 0 && group(all[at].name) == 7 by {
        if at > start {
            assert(all[at] == prerequisites[at - start - 1]);
            assert(prerequisites[at - start - 1].name[16] == prerequisite_name[16]);
            assert(prerequisites[at - start - 1].name[0] == prerequisite_name[0]);
            assert(prerequisites[at - start - 1].name[8] == prerequisite_name[8]);
        }
    }
    assert forall|at: int| 0 <= at < all.len() implies (#[trigger] all[at]).name.len() > 0 && 7
        <= group(all[at].name) <= 7 by {
        if at >= 1 && at < start {
            assert(all[at].name[16] != 0x74);
        } else if at >= start {
            assert(all[at].name[16] == 0x70);
        }
    }
}

proof fn lemma_rules_grouped(rules: Seq<ObservedRule>)
    ensures
        grouped(rule_fields(rules), 7, 7),
    decreases rules.len(),
{
    if rules.len() > 0 {
        lemma_rules_grouped(rules.drop_last());
        lemma_rule_parts(rules.last(), (rules.len() - 1) as nat);
        lemma_grouped_concat(
            rule_fields(rules.drop_last()),
            one_rule(rules.last(), (rules.len() - 1) as nat),
            7,
            7,
            7,
        );
    }
}

proof fn lemma_dummies_grouped(targets: Seq<DepfileTarget<Seq<u8>>>)
    ensures
        grouped(target_fields(bstr::utf8("depfile-dummy-"@), targets), 8, 8),
{
    let lead = bstr::utf8("depfile-dummy-"@);
    lemma_depfile_names();
    lemma_targets_led(lead, targets);
    let all = target_fields(lead, targets);
    assert forall|at: int| 0 <= at < all.len() implies (#[trigger] all[at]).name.len() > 0 && 8
        <= group(all[at].name) <= 8 by {
        assert(all[at].name[0] == lead[0]);
        assert(all[at].name[8] == lead[8]);
    }
}

proof fn lemma_preprocessor_grouped(value: Option<PreprocessorObservation<Seq<u8>>>)
    ensures
        grouped(preprocessor_fields(value), 9, 9),
{
    lemma_preprocessor_names();
}

/// What follows each group of fields belongs to later groups.
proof fn lemma_rests_grouped(action: Action)
    ensures
        ({
            let preprocessor = preprocessor_fields(action.observation.preprocessor);
            let dummies = target_fields(
                bstr::utf8("depfile-dummy-"@),
                action.observation.depfile_shape.dummy_targets,
            );
            let rules = rule_fields(action.observation.depfile_shape.primary_rules);
            let outputs = output_fields(action.observation.outputs);
            let inputs = input_fields(action.observation.inputs);
            let modules = module_directory_fields(action.cwd, action.invocation.module_dir);
            let directories = list_fields(
                "include-directory-"@,
                seen_from(action.cwd, action.invocation.include_dirs),
            );
            let variables = environment_fields(environment::relevant(action.environment));
            let arguments = list_fields("argument-"@, action.invocation.original_args);
            &&& grouped(arguments, 1, 1)
            &&& grouped(variables, 2, 2)
            &&& grouped(directories, 3, 3)
            &&& grouped(modules, 4, 4)
            &&& grouped(inputs, 5, 5)
            &&& grouped(outputs, 6, 6)
            &&& grouped(rules, 7, 7)
            &&& grouped(dummies, 8, 8)
            &&& grouped(preprocessor, 9, 9)
            &&& grouped(dummies + preprocessor, 8, 9)
            &&& grouped(rules + (dummies + preprocessor), 7, 9)
            &&& grouped(outputs + (rules + (dummies + preprocessor)), 6, 9)
            &&& grouped(inputs + (outputs + (rules + (dummies + preprocessor))), 5, 9)
            &&& grouped(modules + (inputs + (outputs + (rules + (dummies + preprocessor)))), 4, 9)
            &&& grouped(
                directories + (modules + (inputs + (outputs + (rules + (dummies + preprocessor))))),
                3,
                9,
            )
            &&& grouped(
                variables + (directories + (modules + (inputs + (outputs + (rules + (dummies
                    + preprocessor)))))),
                2,
                9,
            )
            &&& grouped(
                arguments + (variables + (directories + (modules + (inputs + (outputs + (rules + (
                dummies + preprocessor))))))),
                1,
                9,
            )
        }),
{
    let preprocessor = preprocessor_fields(action.observation.preprocessor);
    let dummies = target_fields(
        bstr::utf8("depfile-dummy-"@),
        action.observation.depfile_shape.dummy_targets,
    );
    let rules = rule_fields(action.observation.depfile_shape.primary_rules);
    let outputs = output_fields(action.observation.outputs);
    let inputs = input_fields(action.observation.inputs);
    let modules = module_directory_fields(action.cwd, action.invocation.module_dir);
    let directories = list_fields(
        "include-directory-"@,
        seen_from(action.cwd, action.invocation.include_dirs),
    );
    let variables = environment_fields(environment::relevant(action.environment));
    let arguments = list_fields("argument-"@, action.invocation.original_args);
    lemma_preprocessor_grouped(action.observation.preprocessor);
    lemma_dummies_grouped(action.observation.depfile_shape.dummy_targets);
    lemma_rules_grouped(action.observation.depfile_shape.primary_rules);
    lemma_outputs_grouped(action.observation.outputs);
    lemma_inputs_grouped(action.observation.inputs);
    lemma_environment_grouped(environment::relevant(action.environment));
    lemma_list_names();
    assert(grouped(modules, 4, 4));
    assert(grouped(directories, 3, 3));
    assert(grouped(arguments, 1, 1));
    lemma_grouped_wider(preprocessor, 9, 9, 8, 9);
    lemma_grouped_concat(dummies, preprocessor, 8, 8, 9);
    let rest = dummies + preprocessor;
    lemma_grouped_wider(rest, 8, 9, 7, 9);
    lemma_grouped_concat(rules, rest, 7, 7, 9);
    let rest = rules + rest;
    lemma_grouped_wider(rest, 7, 9, 6, 9);
    lemma_grouped_concat(outputs, rest, 6, 6, 9);
    let rest = outputs + rest;
    lemma_grouped_wider(rest, 6, 9, 5, 9);
    lemma_grouped_concat(inputs, rest, 5, 5, 9);
    let rest = inputs + rest;
    lemma_grouped_wider(rest, 5, 9, 4, 9);
    lemma_grouped_concat(modules, rest, 4, 4, 9);
    let rest = modules + rest;
    lemma_grouped_wider(rest, 4, 9, 3, 9);
    lemma_grouped_concat(directories, rest, 3, 3, 9);
    let rest = directories + rest;
    lemma_grouped_wider(rest, 3, 9, 2, 9);
    lemma_grouped_concat(variables, rest, 2, 2, 9);
    let rest = variables + rest;
    lemma_grouped_wider(rest, 2, 9, 1, 9);
    lemma_grouped_concat(arguments, rest, 1, 1, 9);
}

proof fn lemma_fields_named(action: Action)
    ensures
        !key::has_empty_name(action_fields(action)),
{
    lemma_rests_grouped(action);
    lemma_leading_names();
    let fields = action_fields(action);
    let lead = leading_fields(action);
    let rest = fields.skip(lead.len() as int);
    assert(fields =~= lead + rest);
    assert(grouped(rest, 1, 9)) by {
        assert(rest =~= list_fields("argument-"@, action.invocation.original_args) + (
        environment_fields(environment::relevant(action.environment)) + (list_fields(
            "include-directory-"@,
            seen_from(action.cwd, action.invocation.include_dirs),
        ) + (module_directory_fields(action.cwd, action.invocation.module_dir) + (input_fields(
            action.observation.inputs,
        ) + (output_fields(action.observation.outputs) + (rule_fields(
            action.observation.depfile_shape.primary_rules,
        ) + (target_fields(
            bstr::utf8("depfile-dummy-"@),
            action.observation.depfile_shape.dummy_targets,
        ) + preprocessor_fields(action.observation.preprocessor)))))))));
    }
    assert forall|at: int| 0 <= at < fields.len() implies (#[trigger] fields[at]).name.len() > 0 by {
        if at < lead.len() {
            assert(fields[at] == lead[at]);
        } else {
            assert(fields[at] == rest[at - lead.len()]);
        }
    }
}

/// Where two lists of fields are equal, so are the parts of them that belong to one group, and what
/// follows it.
proof fn lemma_split_group(
    left: Seq<KeyField<Seq<u8>>>,
    left_rest: Seq<KeyField<Seq<u8>>>,
    right: Seq<KeyField<Seq<u8>>>,
    right_rest: Seq<KeyField<Seq<u8>>>,
    number: int,
)
    requires
        left + left_rest == right + right_rest,
        grouped(left, number, number),
        grouped(right, number, number),
        grouped(left_rest, number + 1, 9),
        grouped(right_rest, number + 1, 9),
    ensures
        left == right,
        left_rest == right_rest,
{
    let whole = left + left_rest;
    let other = right + right_rest;
    if left.len() < right.len() {
        assert(whole[left.len() as int] == left_rest[0]);
        assert(other[left.len() as int] == right[left.len() as int]);
    }
    if right.len() < left.len() {
        assert(whole[right.len() as int] == left[right.len() as int]);
        assert(other[right.len() as int] == right_rest[0]);
    }
    assert(left =~= whole.take(left.len() as int));
    assert(right =~= other.take(right.len() as int));
    assert(left_rest =~= whole.skip(left.len() as int));
    assert(right_rest =~= other.skip(right.len() as int));
}

/// Where two lists of equal length end in lists of equal length, they agree in both parts.
proof fn lemma_split_at(
    left: Seq<KeyField<Seq<u8>>>,
    left_rest: Seq<KeyField<Seq<u8>>>,
    right: Seq<KeyField<Seq<u8>>>,
    right_rest: Seq<KeyField<Seq<u8>>>,
)
    requires
        left + left_rest == right + right_rest,
        left.len() == right.len(),
    ensures
        left == right,
        left_rest == right_rest,
{
    let whole = left + left_rest;
    let other = right + right_rest;
    assert(left =~= whole.take(left.len() as int));
    assert(right =~= other.take(right.len() as int));
    assert(left_rest =~= whole.skip(left.len() as int));
    assert(right_rest =~= other.skip(right.len() as int));
}

#[verifier::spinoff_prover]
proof fn lemma_list_decodes(name: Seq<char>, left: Seq<Seq<u8>>, right: Seq<Seq<u8>>)
    requires
        list_fields(name, left) == list_fields(name, right),
    ensures
        left == right,
{
    let first = list_fields(name, left);
    let second = list_fields(name, right);
    assert(first.len() == second.len());
    assert forall|at: int| 0 <= at < left.len() implies #[trigger] left[at] == right[at] by {
        assert(first[at].value == second[at].value);
    }
    assert(left =~= right);
}

#[verifier::spinoff_prover]
proof fn lemma_environment_decodes(left: Seq<Pair<Seq<u8>>>, right: Seq<Pair<Seq<u8>>>)
    requires
        environment_fields(left) == environment_fields(right),
    ensures
        left == right,
    decreases left.len(),
{
    lemma_environment_grouped(left);
    lemma_environment_grouped(right);
    assert(left.len() == right.len());
    if left.len() > 0 {
        lemma_environment_grouped(left.drop_last());
        lemma_environment_grouped(right.drop_last());
        let index = (left.len() - 1) as nat;
        let first = seq![
            numbered_field("environment-name-"@, index, left.last().name),
            numbered_field("environment-value-"@, index, left.last().value),
        ];
        let second = seq![
            numbered_field("environment-name-"@, index, right.last().name),
            numbered_field("environment-value-"@, index, right.last().value),
        ];
        lemma_split_at(
            environment_fields(left.drop_last()),
            first,
            environment_fields(right.drop_last()),
            second,
        );
        lemma_environment_decodes(left.drop_last(), right.drop_last());
        assert(first[0].value == second[0].value);
        assert(first[1].value == second[1].value);
        assert(left =~= left.drop_last().push(left.last()));
        assert(right =~= right.drop_last().push(right.last()));
    }
    assert(left =~= right);
}

/// What a key says of an input.
#[verifier::ext_equal]
pub struct KeyedInput {
    pub path: Seq<u8>,
    pub digest: Seq<u8>,
    pub size: u64,
}

/// What a key says of the inputs.
pub open spec fn keyed_inputs(inputs: Seq<InputFile<Seq<u8>, Seq<u8>>>) -> Seq<KeyedInput> {
    inputs.map_values(
        |input: InputFile<Seq<u8>, Seq<u8>>|
            KeyedInput { path: input.path, digest: input.digest, size: input.size },
    )
}

#[verifier::spinoff_prover]
proof fn lemma_inputs_decode(
    left: Seq<InputFile<Seq<u8>, Seq<u8>>>,
    right: Seq<InputFile<Seq<u8>, Seq<u8>>>,
)
    requires
        input_fields(left) == input_fields(right),
    ensures
        keyed_inputs(left) == keyed_inputs(right),
    decreases left.len(),
{
    lemma_inputs_grouped(left);
    lemma_inputs_grouped(right);
    assert(left.len() == right.len());
    if left.len() > 0 {
        lemma_inputs_grouped(left.drop_last());
        lemma_inputs_grouped(right.drop_last());
        let index = (left.len() - 1) as nat;
        let first = seq![
            numbered_field("input-path-"@, index, left.last().path),
            numbered_field("input-digest-"@, index, left.last().digest),
            numbered_field("input-size-"@, index, bstr::u64_le(left.last().size)),
        ];
        let second = seq![
            numbered_field("input-path-"@, index, right.last().path),
            numbered_field("input-digest-"@, index, right.last().digest),
            numbered_field("input-size-"@, index, bstr::u64_le(right.last().size)),
        ];
        lemma_split_at(
            input_fields(left.drop_last()),
            first,
            input_fields(right.drop_last()),
            second,
        );
        lemma_inputs_decode(left.drop_last(), right.drop_last());
        assert(first[0].value == second[0].value);
        assert(first[1].value == second[1].value);
        assert(first[2].value == second[2].value);
        bstr::lemma_u64_le_injective(left.last().size, right.last().size);
        assert forall|at: int| 0 <= at < left.len() implies #[trigger] keyed_inputs(left)[at]
            == keyed_inputs(right)[at] by {
            if at < index {
                assert(keyed_inputs(left.drop_last())[at] == keyed_inputs(right.drop_last())[at]);
            }
        }
    }
    assert(keyed_inputs(left) =~= keyed_inputs(right));
}

/// What a key says of an output.
#[verifier::ext_equal]
pub struct KeyedOutput {
    pub name: Seq<u8>,
    pub path: Seq<u8>,
    pub probe_digest: Option<Seq<u8>>,
    pub probe_size: Option<u64>,
}

/// What a key says of an output.
pub open spec fn keyed_output(
    output: ExpectedArtifact<Seq<char>, Seq<u8>, Seq<u8>>,
) -> KeyedOutput {
    KeyedOutput {
        name: bstr::utf8(output.logical_name),
        path: output.path,
        probe_digest: output.probe_digest,
        probe_size: output.probe_size,
    }
}

/// What a key says of the outputs.
pub open spec fn keyed_outputs(
    outputs: Seq<ExpectedArtifact<Seq<char>, Seq<u8>, Seq<u8>>>,
) -> Seq<KeyedOutput> {
    outputs.map_values(
        |output: ExpectedArtifact<Seq<char>, Seq<u8>, Seq<u8>>| keyed_output(output),
    )
}

#[verifier::spinoff_prover]
proof fn lemma_output_decodes(
    left: ExpectedArtifact<Seq<char>, Seq<u8>, Seq<u8>>,
    right: ExpectedArtifact<Seq<char>, Seq<u8>, Seq<u8>>,
    index: nat,
)
    requires
        one_output(left, index) == one_output(right, index),
    ensures
        keyed_output(left) == keyed_output(right),
{
    lemma_file_names();
    let first = one_output(left, index);
    let second = one_output(right, index);
    assert(first[0].value == second[0].value);
    assert(first[1].value == second[1].value);
    assert(first.len() == second.len());
    if first.len() > 2 {
        assert(first[2].name[13] == second[2].name[13]);
        assert(first[2].value == second[2].value);
    }
    if first.len() > 3 {
        assert(first[3].value == second[3].value);
    }
    if left.probe_size is Some && right.probe_size is Some {
        bstr::lemma_u64_le_injective(left.probe_size->0, right.probe_size->0);
    }
}

proof fn lemma_output_starts(
    output: ExpectedArtifact<Seq<char>, Seq<u8>, Seq<u8>>,
    index: nat,
)
    ensures
        one_output(output, index).len() >= 2,
        one_output(output, index)[0].name[7] == 0x6e,
        forall|at: int|
            1 <= at < one_output(output, index).len() ==> (#[trigger] one_output(
                output,
                index,
            )[at]).name[7] == 0x70,
{
    lemma_file_names();
}

#[verifier::spinoff_prover]
proof fn lemma_outputs_decode(
    left: Seq<ExpectedArtifact<Seq<char>, Seq<u8>, Seq<u8>>>,
    right: Seq<ExpectedArtifact<Seq<char>, Seq<u8>, Seq<u8>>>,
)
    requires
        output_fields(left) == output_fields(right),
    ensures
        keyed_outputs(left) == keyed_outputs(right),
        left.len() == right.len(),
    decreases left.len(),
{
    if left.len() > 0 {
        lemma_output_starts(left.last(), (left.len() - 1) as nat);
    }
    if right.len() > 0 {
        lemma_output_starts(right.last(), (right.len() - 1) as nat);
    }
    if left.len() > 0 && right.len() > 0 {
        let whole = output_fields(left);
        let other = output_fields(right);
        let first = output_fields(left.drop_last());
        let second = output_fields(right.drop_last());
        let first_rest = one_output(left.last(), (left.len() - 1) as nat);
        let second_rest = one_output(right.last(), (right.len() - 1) as nat);
        assert(whole == first + first_rest);
        assert(other == second + second_rest);
        if first.len() < second.len() {
            assert(other[second.len() as int] == second_rest[0]);
            assert(whole[second.len() as int] == first_rest[second.len() - first.len()]);
        }
        if second.len() < first.len() {
            assert(whole[first.len() as int] == first_rest[0]);
            assert(other[first.len() as int] == second_rest[first.len() - second.len()]);
        }
        lemma_split_at(first, first_rest, second, second_rest);
        lemma_outputs_decode(left.drop_last(), right.drop_last());
        lemma_output_decodes(left.last(), right.last(), (left.len() - 1) as nat);
        assert forall|at: int| 0 <= at < left.len() implies #[trigger] keyed_outputs(left)[at]
            == keyed_outputs(right)[at] by {
            if at < left.len() - 1 {
                assert(keyed_outputs(left.drop_last())[at] == keyed_outputs(right.drop_last())[at]);
            }
        }
    }
    assert(keyed_outputs(left) =~= keyed_outputs(right));
}

#[verifier::spinoff_prover]
proof fn lemma_targets_decode(
    name: Seq<u8>,
    left: Seq<DepfileTarget<Seq<u8>>>,
    right: Seq<DepfileTarget<Seq<u8>>>,
)
    requires
        target_fields(name, left) == target_fields(name, right),
    ensures
        left == right,
    decreases left.len(),
{
    lemma_targets_led(name, left);
    lemma_targets_led(name, right);
    assert(left.len() == right.len());
    if left.len() > 0 {
        lemma_targets_led(name, left.drop_last());
        lemma_targets_led(name, right.drop_last());
        let numbered_name = numbered(name, (left.len() - 1) as nat);
        let first = one_target(numbered_name, left.last());
        let second = one_target(numbered_name, right.last());
        lemma_split_at(
            target_fields(name, left.drop_last()),
            first,
            target_fields(name, right.drop_last()),
            second,
        );
        lemma_targets_decode(name, left.drop_last(), right.drop_last());
        lemma_kind_texts();
        assert(first[0].value == second[0].value);
        assert(first[1].value == second[1].value);
        assert(left =~= left.drop_last().push(left.last()));
        assert(right =~= right.drop_last().push(right.last()));
    }
    assert(left =~= right);
}

#[verifier::spinoff_prover]
proof fn lemma_prerequisites_decode(
    name: Seq<u8>,
    left: Seq<DepfilePrerequisite<Seq<u8>>>,
    right: Seq<DepfilePrerequisite<Seq<u8>>>,
)
    requires
        prerequisite_fields(name, left) == prerequisite_fields(name, right),
    ensures
        left == right,
    decreases left.len(),
{
    lemma_prerequisites_led(name, left);
    lemma_prerequisites_led(name, right);
    assert(left.len() == right.len());
    if left.len() > 0 {
        lemma_prerequisites_led(name, left.drop_last());
        lemma_prerequisites_led(name, right.drop_last());
        let numbered_name = numbered(name, (left.len() - 1) as nat);
        let first = one_prerequisite(numbered_name, left.last());
        let second = one_prerequisite(numbered_name, right.last());
        lemma_split_at(
            prerequisite_fields(name, left.drop_last()),
            first,
            prerequisite_fields(name, right.drop_last()),
            second,
        );
        lemma_prerequisites_decode(name, left.drop_last(), right.drop_last());
        lemma_kind_texts();
        assert(first[0].value == second[0].value);
        assert(first[1].value == second[1].value);
        assert(left =~= left.drop_last().push(left.last()));
        assert(right =~= right.drop_last().push(right.last()));
    }
    assert(left =~= right);
}

#[verifier::spinoff_prover]
proof fn lemma_rule_decodes(left: ObservedRule, right: ObservedRule, index: nat)
    requires
        one_rule(left, index) == one_rule(right, index),
    ensures
        left == right,
{
    reveal(one_rule);
    lemma_rule_parts(left, index);
    lemma_rule_parts(right, index);
    let target_name = in_rule("depfile-primary-"@, index);
    let prerequisite_name = in_rule("depfile-primary-prerequisite-"@, index);
    lemma_targets_led(target_name, left.targets);
    lemma_targets_led(target_name, right.targets);
    lemma_prerequisites_led(prerequisite_name, left.prerequisites);
    lemma_prerequisites_led(prerequisite_name, right.prerequisites);
    let whole = one_rule(left, index);
    let other = one_rule(right, index);
    let left_end = 1 + 2 * left.targets.len();
    let right_end = 1 + 2 * right.targets.len();
    if left_end < right_end {
        assert(whole[left_end as int].name[16] == 0x70);
        assert(other[left_end as int].name[16] != 0x70);
    }
    if right_end < left_end {
        assert(other[right_end as int].name[16] == 0x70);
        assert(whole[right_end as int].name[16] != 0x70);
    }
    let first = target_fields(target_name, left.targets);
    let second = target_fields(target_name, right.targets);
    assert(first =~= whole.subrange(1, left_end as int));
    assert(second =~= other.subrange(1, left_end as int));
    lemma_targets_decode(target_name, left.targets, right.targets);
    let first_rest = prerequisite_fields(prerequisite_name, left.prerequisites);
    let second_rest = prerequisite_fields(prerequisite_name, right.prerequisites);
    assert(first_rest =~= whole.skip((left_end + 1) as int));
    assert(second_rest =~= other.skip((left_end + 1) as int));
    lemma_prerequisites_decode(prerequisite_name, left.prerequisites, right.prerequisites);
}

#[verifier::spinoff_prover]
proof fn lemma_rules_decode(left: Seq<ObservedRule>, right: Seq<ObservedRule>)
    requires
        rule_fields(left) == rule_fields(right),
    ensures
        left == right,
    decreases left.len(),
{
    if left.len() > 0 {
        lemma_rule_parts(left.last(), (left.len() - 1) as nat);
    }
    if right.len() > 0 {
        lemma_rule_parts(right.last(), (right.len() - 1) as nat);
    }
    if left.len() > 0 && right.len() == 0 {
        assert(rule_fields(left).len() >= 2);
    }
    if right.len() > 0 && left.len() == 0 {
        assert(rule_fields(right).len() >= 2);
    }
    if left.len() > 0 && right.len() > 0 {
        let whole = rule_fields(left);
        let other = rule_fields(right);
        let first = rule_fields(left.drop_last());
        let second = rule_fields(right.drop_last());
        let first_rest = one_rule(left.last(), (left.len() - 1) as nat);
        let second_rest = one_rule(right.last(), (right.len() - 1) as nat);
        assert(whole == first + first_rest);
        assert(other == second + second_rest);
        assert(first_rest.len() >= 2 && second_rest.len() >= 2);
        assert(first.len() + first_rest.len() == second.len() + second_rest.len());
        assert(whole == first + first_rest);
        assert(other == second + second_rest);
        if first.len() < second.len() {
            assert(other[second.len() as int] == second_rest[0]);
            assert(whole[second.len() as int] == first_rest[second.len() - first.len()]);
        }
        if second.len() < first.len() {
            assert(whole[first.len() as int] == first_rest[0]);
            assert(other[first.len() as int] == second_rest[first.len() - second.len()]);
        }
        lemma_split_at(first, first_rest, second, second_rest);
        lemma_rules_decode(left.drop_last(), right.drop_last());
        lemma_rule_decodes(left.last(), right.last(), (left.len() - 1) as nat);
        assert(left =~= left.drop_last().push(left.last()));
        assert(right =~= right.drop_last().push(right.last()));
    }
    assert(left =~= right);
}

#[verifier::spinoff_prover]
proof fn lemma_u32_le_injective(left: u32, right: u32)
    requires
        bstr::u32_le(left) == bstr::u32_le(right),
    ensures
        left == right,
{
    let first = bstr::u32_le(left);
    let second = bstr::u32_le(right);
    assert(first[0] == second[0] && first[1] == second[1] && first[2] == second[2] && first[3]
        == second[3]);
}

#[verifier::spinoff_prover]
proof fn lemma_preprocessor_decodes(
    left: Option<PreprocessorObservation<Seq<u8>>>,
    right: Option<PreprocessorObservation<Seq<u8>>>,
)
    requires
        preprocessor_fields(left) == preprocessor_fields(right),
    ensures
        left == right,
{
    let first = preprocessor_fields(left);
    let second = preprocessor_fields(right);
    assert(first.len() == second.len());
    if left is Some && right is Some {
        assert(first[0].value == second[0].value);
        assert(first[1].value == second[1].value);
        assert(first[2].value == second[2].value);
        assert(first[3].value == second[3].value);
        assert(first[4].value == second[4].value);
        assert(first[4].value[0] == second[4].value[0]);
        bstr::lemma_u64_le_injective(left->0.stdout_size, right->0.stdout_size);
        bstr::lemma_u64_le_injective(left->0.stderr_size, right->0.stderr_size);
        assert(left->0.stdout_digest == right->0.stdout_digest);
        assert(left->0.stderr_digest == right->0.stderr_digest);
        assert(left->0 == right->0);
    }
}

/// A key covers everything that the result of a compilation depends on: what is hashed for two
/// compilations differs unless they agree in the file mode creation mask, the compiler and its
/// fingerprint, the working directory, the arguments, the variables of the environment other than
/// `MAKEFLAGS` and `MFLAGS`, the directories that are searched, every input by path and contents,
/// every output, the dependency rules and what the preprocessor wrote.
pub proof fn law_key_covers_the_compilation(left: Action, right: Action)
    requires
        key::fields_fit(action_fields(left)),
        key::fields_fit(action_fields(right)),
        key::preimage(action_fields(left)) == key::preimage(action_fields(right)),
    ensures
        left.umask == right.umask,
        left.compiler == right.compiler,
        left.compiler_digest == right.compiler_digest,
        left.cwd == right.cwd,
        left.invocation.original_args == right.invocation.original_args,
        environment::relevant(left.environment) == environment::relevant(right.environment),
        left.environment.filter(
            |pair: Pair<Seq<u8>>|
                pair.name != bstr::utf8("MAKEFLAGS"@) && pair.name != bstr::utf8("MFLAGS"@),
        ) == right.environment.filter(
            |pair: Pair<Seq<u8>>|
                pair.name != bstr::utf8("MAKEFLAGS"@) && pair.name != bstr::utf8("MFLAGS"@),
        ),
        seen_from(left.cwd, left.invocation.include_dirs) == seen_from(
            right.cwd,
            right.invocation.include_dirs,
        ),
        module_directory_fields(left.cwd, left.invocation.module_dir) == module_directory_fields(
            right.cwd,
            right.invocation.module_dir,
        ),
        keyed_inputs(left.observation.inputs) == keyed_inputs(right.observation.inputs),
        keyed_outputs(left.observation.outputs) == keyed_outputs(right.observation.outputs),
        left.observation.depfile_shape == right.observation.depfile_shape,
        left.observation.preprocessor == right.observation.preprocessor,
{
    key::law_framing_prevents_collisions(action_fields(left), action_fields(right));
    lemma_rests_grouped(left);
    lemma_rests_grouped(right);
    let preprocessor = preprocessor_fields(left.observation.preprocessor);
    let dummies = target_fields(
        bstr::utf8("depfile-dummy-"@),
        left.observation.depfile_shape.dummy_targets,
    );
    let rules = rule_fields(left.observation.depfile_shape.primary_rules);
    let outputs = output_fields(left.observation.outputs);
    let inputs = input_fields(left.observation.inputs);
    let modules = module_directory_fields(left.cwd, left.invocation.module_dir);
    let directories = list_fields(
        "include-directory-"@,
        seen_from(left.cwd, left.invocation.include_dirs),
    );
    let variables = environment_fields(environment::relevant(left.environment));
    let arguments = list_fields("argument-"@, left.invocation.original_args);
    let preprocessor2 = preprocessor_fields(right.observation.preprocessor);
    let dummies2 = target_fields(
        bstr::utf8("depfile-dummy-"@),
        right.observation.depfile_shape.dummy_targets,
    );
    let rules2 = rule_fields(right.observation.depfile_shape.primary_rules);
    let outputs2 = output_fields(right.observation.outputs);
    let inputs2 = input_fields(right.observation.inputs);
    let modules2 = module_directory_fields(right.cwd, right.invocation.module_dir);
    let directories2 = list_fields(
        "include-directory-"@,
        seen_from(right.cwd, right.invocation.include_dirs),
    );
    let variables2 = environment_fields(environment::relevant(right.environment));
    let arguments2 = list_fields("argument-"@, right.invocation.original_args);
    let rest8 = dummies + preprocessor;
    let rest7 = rules + rest8;
    let rest6 = outputs + rest7;
    let rest5 = inputs + rest6;
    let rest4 = modules + rest5;
    let rest3 = directories + rest4;
    let rest2 = variables + rest3;
    let rest1 = arguments + rest2;
    let other8 = dummies2 + preprocessor2;
    let other7 = rules2 + other8;
    let other6 = outputs2 + other7;
    let other5 = inputs2 + other6;
    let other4 = modules2 + other5;
    let other3 = directories2 + other4;
    let other2 = variables2 + other3;
    let other1 = arguments2 + other2;
    let lead = leading_fields(left);
    let lead2 = leading_fields(right);
    lemma_split_at(lead, rest1, lead2, other1);
    assert(lead[1].value == lead2[1].value);
    assert(lead[2].value == lead2[2].value);
    assert(lead[3].value == lead2[3].value);
    assert(lead[4].value == lead2[4].value);
    lemma_u32_le_injective(left.umask, right.umask);
    lemma_split_group(arguments, rest2, arguments2, other2, 1);
    lemma_split_group(variables, rest3, variables2, other3, 2);
    lemma_split_group(directories, rest4, directories2, other4, 3);
    lemma_split_group(modules, rest5, modules2, other5, 4);
    lemma_split_group(inputs, rest6, inputs2, other6, 5);
    lemma_split_group(outputs, rest7, outputs2, other7, 6);
    lemma_split_group(rules, rest8, rules2, other8, 7);
    lemma_split_group(dummies, preprocessor, dummies2, preprocessor2, 8);
    lemma_list_decodes(
        "argument-"@,
        left.invocation.original_args,
        right.invocation.original_args,
    );
    lemma_environment_decodes(
        environment::relevant(left.environment),
        environment::relevant(right.environment),
    );
    lemma_list_decodes(
        "include-directory-"@,
        seen_from(left.cwd, left.invocation.include_dirs),
        seen_from(right.cwd, right.invocation.include_dirs),
    );
    lemma_inputs_decode(left.observation.inputs, right.observation.inputs);
    lemma_outputs_decode(left.observation.outputs, right.observation.outputs);
    lemma_rules_decode(
        left.observation.depfile_shape.primary_rules,
        right.observation.depfile_shape.primary_rules,
    );
    lemma_targets_decode(
        bstr::utf8("depfile-dummy-"@),
        left.observation.depfile_shape.dummy_targets,
        right.observation.depfile_shape.dummy_targets,
    );
    lemma_preprocessor_decodes(left.observation.preprocessor, right.observation.preprocessor);
    environment::law_all_but_the_job_server_is_relevant(left.environment);
    environment::law_all_but_the_job_server_is_relevant(right.environment);
}

/// Compilations that are hashed alike read the same files with the same contents, one by one, and
/// write the same outputs, with the same modules; they search the same directories, and leave
/// modules in the same one.
#[verifier::spinoff_prover]
pub proof fn law_key_covers_each_input_and_output(left: Action, right: Action)
    requires
        key::fields_fit(action_fields(left)),
        key::fields_fit(action_fields(right)),
        key::preimage(action_fields(left)) == key::preimage(action_fields(right)),
    ensures
        left.invocation.include_dirs.len() == right.invocation.include_dirs.len(),
        forall|at: int|
            0 <= at < left.invocation.include_dirs.len() ==> upath::joined(
                left.cwd,
                #[trigger] left.invocation.include_dirs[at],
            ) == upath::joined(right.cwd, right.invocation.include_dirs[at]),
        left.invocation.module_dir is Some <==> right.invocation.module_dir is Some,
        left.invocation.module_dir matches Some(directory) ==> upath::joined(left.cwd, directory)
            == upath::joined(right.cwd, right.invocation.module_dir->0),
        left.observation.inputs.len() == right.observation.inputs.len(),
        forall|at: int|
            0 <= at < left.observation.inputs.len() ==> {
                let one = #[trigger] left.observation.inputs[at];
                let other = right.observation.inputs[at];
                one.path == other.path && one.digest == other.digest && one.size == other.size
            },
        left.observation.outputs.len() == right.observation.outputs.len(),
        forall|at: int|
            0 <= at < left.observation.outputs.len() ==> {
                let one = #[trigger] left.observation.outputs[at];
                let other = right.observation.outputs[at];
                bstr::utf8(one.logical_name) == bstr::utf8(other.logical_name) && one.path == other.path && one.probe_digest
                    == other.probe_digest && one.probe_size == other.probe_size
            },
{
    law_key_covers_the_compilation(left, right);
    let modules = module_directory_fields(left.cwd, left.invocation.module_dir);
    let modules2 = module_directory_fields(right.cwd, right.invocation.module_dir);
    let searched = seen_from(left.cwd, left.invocation.include_dirs);
    let searched2 = seen_from(right.cwd, right.invocation.include_dirs);
    assert(searched.len() == searched2.len());
    assert forall|at: int| 0 <= at < left.invocation.include_dirs.len() implies upath::joined(
        left.cwd,
        #[trigger] left.invocation.include_dirs[at],
    ) == upath::joined(right.cwd, right.invocation.include_dirs[at]) by {
        assert(searched[at] == searched2[at]);
    }
    assert(modules.len() == modules2.len());
    if left.invocation.module_dir is Some {
        assert(modules[0].value == modules2[0].value);
    }
    let read = keyed_inputs(left.observation.inputs);
    let read2 = keyed_inputs(right.observation.inputs);
    assert(read.len() == read2.len());
    assert forall|at: int| 0 <= at < left.observation.inputs.len() implies ({
        let one = #[trigger] left.observation.inputs[at];
        let other = right.observation.inputs[at];
        one.path == other.path && one.digest == other.digest && one.size == other.size
    }) by {
        assert(read[at] == read2[at]);
    }
    let written = keyed_outputs(left.observation.outputs);
    let written2 = keyed_outputs(right.observation.outputs);
    assert(written.len() == written2.len());
    assert forall|at: int| 0 <= at < left.observation.outputs.len() implies ({
        let one = #[trigger] left.observation.outputs[at];
        let other = right.observation.outputs[at];
        bstr::utf8(one.logical_name) == bstr::utf8(other.logical_name) && one.path == other.path && one.probe_digest
            == other.probe_digest && one.probe_size == other.probe_size
    }) by {
        assert(written[at] == written2[at]);
    }
}

} // verus!
