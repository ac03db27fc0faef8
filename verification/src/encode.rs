//! The value of an environment variable, made from the occurrences of an argument.

use vstd::prelude::*;
use vstd::string::StringExecFns;
use crate::config::{effective_env_var, ArgConfig, EnvVarConfig, EnvVarConfigModel};

verus! {

/// The characters of each string of a list.
pub open spec fn texts_view(texts: Seq<String>) -> Seq<Seq<char>> {
    Seq::new(texts.len(), |i: int| texts[i]@)
}

/// The values of each occurrence of a list.
pub open spec fn occurrences_view(occurrences: Seq<Vec<String>>) -> Seq<Seq<Seq<char>>> {
    Seq::new(occurrences.len(), |i: int| texts_view(occurrences[i]@))
}

/// The first `n` parts of a list in one string, with the delimiter between each two.
pub open spec fn joined(parts: Seq<Seq<char>>, n: nat, delimiter: Seq<char>) -> Seq<char>
    decreases n,
{
    if n == 0 || n > parts.len() {
        Seq::empty()
    } else if n == 1 {
        parts[0]
    } else {
        joined(parts, (n - 1) as nat, delimiter) + delimiter + parts[n - 1]
    }
}

/// The parts of a list in one string, with the delimiter between each two. Nothing is
/// done about a delimiter that occurs inside a part.
pub open spec fn join(parts: Seq<Seq<char>>, delimiter: Seq<char>) -> Seq<char> {
    joined(parts, parts.len(), delimiter)
}

/// Each occurrence in one string: its values with the value delimiter between them.
pub open spec fn occurrence_texts(
    occurrences: Seq<Seq<Seq<char>>>,
    value_delimiter: Seq<char>,
) -> Seq<Seq<char>> {
    Seq::new(occurrences.len(), |i: int| join(occurrences[i], value_delimiter))
}

/// The value that the occurrences of an argument give its variable: none where the
/// argument did not occur, else the occurrences with the occurrence delimiter between
/// them, each being its values with the value delimiter between them.
pub open spec fn encoded(occurrences: Seq<Seq<Seq<char>>>, config: EnvVarConfigModel) -> Option<
    Seq<char>,
> {
    if occurrences.len() == 0 {
        None
    } else {
        Some(
            join(occurrence_texts(occurrences, config.value_delimiter), config.occurrence_delimiter),
        )
    }
}

/// One occurrence with one value gives exactly that value, whatever the delimiters.
pub proof fn lemma_single_value(occurrences: Seq<Seq<Seq<char>>>, config: EnvVarConfigModel)
    requires
        occurrences.len() == 1,
        occurrences[0].len() == 1,
    ensures
        encoded(occurrences, config) == Some(occurrences[0][0]),
{
}

/// An argument that did not occur gives no value, whatever the delimiters.
pub proof fn lemma_no_occurrence(config: EnvVarConfigModel)
    ensures
        encoded(Seq::empty(), config) is None,
{
}

/// Joins strings into one, with the delimiter between each two.
pub fn join_values(values: &Vec<String>, delimiter: &str) -> (text: String)
    ensures
        text@ == join(texts_view(values@), delimiter@),
{
    let ghost parts = texts_view(values@);
    let mut text = String::new();
    let mut i: usize = 0;
    while i < values.len()
        invariant
            i <= values.len(),
            parts == texts_view(values@),
            text@ == joined(parts, i as nat, delimiter@),
        decreases values.len() - i,
    {
        if i > 0 {
            text.append(delimiter);
        }
        text.append(values[i].as_str());
        assert(text@ =~= joined(parts, (i + 1) as nat, delimiter@));
        i += 1;
    }
    text
}

/// Makes the value of an environment variable from the occurrences of an argument: no
/// value where the argument did not occur.
pub fn encode_occurrences(
    occurrences: &Vec<Vec<String>>,
    config: &EnvVarConfig,
) -> (value: Option<String>)
    ensures
        match encoded(occurrences_view(occurrences@), config@) {
            Some(text) => value matches Some(v) && v@ == text,
            None => value is None,
        },
        occurrences@.len() == 0 <==> value is None,
        occurrences@.len() == 1 && occurrences@[0]@.len() == 1 ==> (value matches Some(v) && v@
            == occurrences@[0]@[0]@),
{
    if occurrences.len() == 0 {
        return None;
    }
    let ghost model = occurrences_view(occurrences@);
    let mut texts: Vec<String> = Vec::new();
    let mut i: usize = 0;
    while i < occurrences.len()
        invariant
            i <= occurrences.len(),
            model == occurrences_view(occurrences@),
            texts@.len() == i,
            forall|j: int|
                0 <= j < i ==> (#[trigger] texts@[j])@ == join(model[j], config@.value_delimiter),
        decreases occurrences.len() - i,
    {
        texts.push(join_values(&occurrences[i], config.value_delimiter.as_str()));
        i += 1;
    }
    assert(texts_view(texts@) =~= occurrence_texts(model, config@.value_delimiter));
    Some(join_values(&texts, config.occurrence_delimiter.as_str()))
}

/// Makes the environment variable of an argument from its occurrences: its name, which
/// is the one that the instructions give or else the canonical name of the argument, and
/// its value. An argument that did not occur gives no variable.
pub fn encode_argument(
    arg_name: &str,
    occurrences: &Vec<Vec<String>>,
    config: &ArgConfig,
) -> (variable: Option<(String, String)>)
    ensures
        match encoded(
            occurrences_view(occurrences@),
            effective_env_var(config@, arg_name@),
        ) {
            Some(text) => variable matches Some(v) && v.0@ == effective_env_var(
                config@,
                arg_name@,
            ).name && v.1@ == text,
            None => variable is None,
        },
        occurrences@.len() == 0 <==> variable is None,
{
    if occurrences.len() == 0 {
        return None;
    }
    let env_var = config.env_var_for(arg_name);
    match encode_occurrences(occurrences, &env_var) {
        Some(value) => Some((env_var.name, value)),
        None => None,
    }
}

} // verus!
