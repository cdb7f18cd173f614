//! What always holds of the ports that are found in text.

use vstd::prelude::*;

use crate::detection::{
    all_candidates, compose_ports, directory_candidates, env_ports, file_candidates, file_named,
    in_line, optional_script_candidates, ports_in, source_candidates, source_confidence,
    source_files, FileEntry, FileModel,
};
use crate::manifest::manifest_in;
use crate::numbers::{decimal, law_decimal_reads_back};
use crate::ports::{
    compose_line_ports, compose_mentions, env_line_port, esbuild_ports, esbuild_scan, first_seen,
    noted, port_behind, port_value, script_mentions, script_ports, script_token_ports, vite_ports,
    vite_scan,
};
use crate::ranking::{
    chosen_at, is_chosen, is_ranking, law_best_candidate_comes_first, source_priority,
    CandidateModel, PortSource,
};
use crate::text::{
    after_prefix, begins_with, lemma_nothing_to_strip, lemma_prefix_in, lines, trimmed, words,
    CharSet,
};

verus! {

/// Every port is read back from a value that spells it.
pub proof fn law_port_value_reads_back(port: u16)
    requires
        port > 0,
    ensures
        port_value(decimal(port as nat)) == Some(port),
{
    let s = decimal(port as nat);
    law_decimal_reads_back(port as nat);
    assert(CharSet::Digit.has(s[0]));
    assert(CharSet::Digit.has(s[s.len() - 1]));
    lemma_nothing_to_strip(s, CharSet::WhiteSpace);
    lemma_nothing_to_strip(s, CharSet::Opening);
    lemma_nothing_to_strip(s, CharSet::Quote);
    lemma_prefix_in(s, CharSet::Digit, s.len() as int);
    assert(s.take(s.len() as int) =~= s);
}

/// A line `PORT=…` of an environment file sets the port that it spells.
pub proof fn law_env_line_reads_back(port: u16)
    requires
        port > 0,
    ensures
        env_line_port("PORT="@ + decimal(port as nat)) == Some(port),
{
    reveal_strlit("PORT=");
    reveal_strlit("PORT");
    reveal_strlit("export ");
    let digits = decimal(port as nat);
    let line = "PORT="@ + digits;
    law_decimal_reads_back(port as nat);
    assert(CharSet::Digit.has(digits[digits.len() - 1]));
    assert(line[0] == 'P');
    assert(line.last() == digits.last());
    lemma_nothing_to_strip(line, CharSet::WhiteSpace);
    assert(after_prefix(line, "export "@) is None) by {
        if begins_with(line, "export "@) {
            assert(line.subrange(0, 7)[0] == "export "@[0]);
        }
    }
    assert(begins_with(line, "PORT"@)) by {
        assert(line.subrange(0, 4) =~= "PORT"@);
    }
    let rest = line.skip(4);
    assert(rest =~= seq!['='] + digits);
    assert(rest.last() == digits.last());
    lemma_nothing_to_strip(rest, CharSet::WhiteSpace);
    assert(rest.skip(1) =~= digits);
    law_port_value_reads_back(port);
}

/// The words of a text that has no white space are the text itself.
proof fn lemma_single_word(s: Seq<char>)
    requires
        s.len() > 0,
        forall|i: int| 0 <= i < s.len() ==> !CharSet::WhiteSpace.has(#[trigger] s[i]),
    ensures
        words(s) == seq![s],
{
    reveal_with_fuel(words, 3);
    lemma_prefix_in(s, CharSet::WhiteSpace, 0);
    assert(s.skip(0) =~= s);
    crate::text::lemma_prefix_outside(s, CharSet::WhiteSpace, s.len() as int);
    assert(s.take(s.len() as int) =~= s);
    let rest = s.skip(s.len() as int);
    assert(rest.len() == 0);
    lemma_prefix_in(rest, CharSet::WhiteSpace, 0);
    assert(words(rest) =~= Seq::empty());
    assert(words(s) =~= seq![s]);
}

/// A script `--port=…` names the port that it spells, and no other.
pub proof fn law_script_flag_reads_back(port: u16)
    requires
        port > 0,
    ensures
        script_ports("--port="@ + decimal(port as nat)) == seq![port],
{
    reveal_strlit("--port=");
    reveal_strlit("PORT=");
    reveal_strlit("--port");
    reveal_strlit("-p");
    let digits = decimal(port as nat);
    let script = "--port="@ + digits;
    law_decimal_reads_back(port as nat);
    assert forall|i: int| 0 <= i < script.len() implies !CharSet::WhiteSpace.has(
        #[trigger] script[i],
    ) by {
        if i >= 7 {
            assert(script[i] == digits[i - 7]);
            assert(CharSet::Digit.has(digits[i - 7]));
        }
    }
    lemma_single_word(script);
    assert(CharSet::Digit.has(digits[digits.len() - 1]));
    assert(script[0] == '-');
    assert(script.last() == digits.last());
    lemma_nothing_to_strip(script, CharSet::Punctuation);
    let tokens = words(script);
    assert(tokens[0] == script);
    assert(port_behind(script, "PORT="@) is None) by {
        if begins_with(script, "PORT="@) {
            assert(script.subrange(0, 5)[0] == "PORT="@[0]);
        }
    }
    assert(begins_with(script, "--port="@)) by {
        assert(script.subrange(0, 7) =~= "--port="@);
    }
    assert(script.skip(7) =~= digits);
    law_port_value_reads_back(port);
    assert(script.len() > 7);
    assert(script_token_ports(tokens, 0) =~= seq![port]);
    reveal_with_fuel(script_mentions, 2);
    assert(script_mentions(tokens, 1) =~= seq![port]);
    reveal_with_fuel(first_seen, 2);
    assert(seq![port].drop_last() =~= Seq::empty());
    assert(script_ports(script) =~= seq![port]);
}

/// Whether every port in a sequence is one that can be listened on.
pub open spec fn all_positive(ports: Seq<u16>) -> bool {
    forall|i: int| 0 <= i < ports.len() ==> #[trigger] ports[i] > 0
}

/// Whether every port in a sequence of ports with lines is one that can be listened on.
pub open spec fn all_placed_positive(found: Seq<(u16, int)>) -> bool {
    forall|i: int| 0 <= i < found.len() ==> (#[trigger] found[i]).0 > 0
}

/// Leaving out later equal items keeps the rest distinct and adds nothing.
proof fn lemma_first_seen(s: Seq<u16>)
    ensures
        first_seen(s).no_duplicates(),
        all_positive(s) ==> all_positive(first_seen(s)),
    decreases s.len(),
{
    if s.len() > 0 {
        lemma_first_seen(s.drop_last());
        if all_positive(s) {
            assert forall|i: int| 0 <= i < s.drop_last().len() implies #[trigger] s.drop_last()[i]
                > 0 by {
                assert(s[i] > 0);
            }
            assert(s[s.len() - 1] > 0);
        }
    }
}

/// The ports of script tokens can be listened on.
proof fn lemma_script_mentions(tokens: Seq<Seq<char>>, n: int)
    ensures
        all_positive(script_mentions(tokens, n)),
    decreases n,
{
    if n > 0 {
        lemma_script_mentions(tokens, n - 1);
        assert(all_positive(script_token_ports(tokens, n - 1)));
    }
}

/// A package script names each port once, and never zero.
pub proof fn law_script_ports_are_distinct(script: Seq<char>)
    ensures
        script_ports(script).no_duplicates(),
        all_positive(script_ports(script)),
{
    let tokens = words(script);
    lemma_script_mentions(tokens, tokens.len() as int);
    lemma_first_seen(script_mentions(tokens, tokens.len() as int));
}

/// The ports of compose words can be listened on.
proof fn lemma_compose_mentions(line_words: Seq<Seq<char>>, n: int)
    ensures
        all_positive(compose_mentions(line_words, n)),
    decreases n,
{
    if n > 0 {
        lemma_compose_mentions(line_words, n - 1);
    }
}

/// A line of a compose file maps each port once, and never zero.
pub proof fn law_compose_ports_are_distinct(line: Seq<char>)
    ensures
        compose_line_ports(line).no_duplicates(),
        all_positive(compose_line_ports(line)),
{
    let line_words = words(trimmed(crate::text::before_char(line, '#')));
    lemma_compose_mentions(line_words, line_words.len() as int);
    lemma_first_seen(compose_mentions(line_words, line_words.len() as int));
}

/// Whether ports with lines are distinct, can be listened on and come from lines up to `n`.
pub open spec fn is_port_list(found: Seq<(u16, int)>, n: int) -> bool {
    &&& all_placed_positive(found)
    &&& forall|i: int, j: int|
        0 <= i < j < found.len() ==> (#[trigger] found[i]).0 != (#[trigger] found[j]).0
    &&& forall|i: int| 0 <= i < found.len() ==> 1 <= (#[trigger] found[i]).1 <= n
}

/// Noting a port keeps a list of ports one.
proof fn lemma_noted(found: Seq<(u16, int)>, port: Option<u16>, n: int)
    requires
        is_port_list(found, n),
        n >= 1,
        port is Some ==> port->0 > 0,
    ensures
        is_port_list(noted(found, port, n), n),
{
}

/// What is read of an esbuild configuration is a list of ports.
proof fn lemma_esbuild_scan(file_lines: Seq<Seq<char>>, n: int)
    requires
        n >= 0,
    ensures
        is_port_list(esbuild_scan(file_lines, n), n),
    decreases n,
{
    if n > 0 {
        lemma_esbuild_scan(file_lines, n - 1);
        let line = crate::ports::without_line_comment(file_lines[n - 1]);
        lemma_assignment_is_positive(trimmed(line), 0);
        lemma_noted(esbuild_scan(file_lines, n - 1), crate::ports::port_assignment(line), n);
    }
}

/// A port that is assigned can be listened on.
proof fn lemma_assignment_is_positive(s: Seq<char>, i: int)
    ensures
        crate::ports::assignment_from(s, i) is Some ==> crate::ports::assignment_from(s, i)->0 > 0,
    decreases s.len() - i,
{
    if 0 <= i < s.len() && crate::ports::assignment_at(s, i) is None {
        lemma_assignment_is_positive(s, i + 1);
    }
}

/// What is read of a Vite configuration is a list of ports.
proof fn lemma_vite_scan(file_lines: Seq<Seq<char>>, n: int)
    requires
        n >= 0,
    ensures
        is_port_list(vite_scan(file_lines, n).found, n),
    decreases n,
{
    if n > 0 {
        lemma_vite_scan(file_lines, n - 1);
        let before = vite_scan(file_lines, n - 1).found;
        let line = trimmed(crate::ports::without_line_comment(file_lines[n - 1]));
        let server = crate::ports::server_port_assignment(line);
        lemma_assignment_is_positive(trimmed(line), 0);
        lemma_noted(before, server, n);
        lemma_noted(noted(before, server, n), crate::ports::port_assignment(line), n);
    }
}

/// The configuration of a build tool gives each port once, never zero, and with a line that it
/// has.
pub proof fn law_config_ports_are_distinct(contents: Seq<char>)
    ensures
        is_port_list(esbuild_ports(contents), lines(contents).len() as int),
        is_port_list(vite_ports(contents), lines(contents).len() as int),
{
    lemma_esbuild_scan(lines(contents), lines(contents).len() as int);
    lemma_vite_scan(lines(contents), lines(contents).len() as int);
}

/// The ports of an environment file can be listened on.
proof fn lemma_env_ports(file_lines: Seq<Seq<char>>, n: int)
    ensures
        all_placed_positive(env_ports(file_lines, n)),
    decreases n,
{
    if n > 0 {
        lemma_env_ports(file_lines, n - 1);
    }
}

/// The ports of a compose file can be listened on.
proof fn lemma_compose_ports(file_lines: Seq<Seq<char>>, n: int)
    ensures
        all_placed_positive(compose_ports(file_lines, n)),
    decreases n,
{
    if n > 0 {
        lemma_compose_ports(file_lines, n - 1);
        law_compose_ports_are_distinct(file_lines[n - 1]);
        let ports = compose_line_ports(file_lines[n - 1]);
        assert forall|i: int| 0 <= i < in_line(ports, n).len() implies (
        #[trigger] in_line(ports, n)[i]).0 > 0 by {
            assert(ports[i] > 0);
        }
    }
}

/// The ports of a file can be listened on.
proof fn lemma_ports_in(source: PortSource, contents: Seq<char>)
    ensures
        all_placed_positive(ports_in(source, contents)),
{
    let all = lines(contents);
    lemma_env_ports(all, all.len() as int);
    lemma_compose_ports(all, all.len() as int);
    law_config_ports_are_distinct(contents);
}

/// Whether a candidate is for a port that can be listened on, and as likely as its source makes it.
pub open spec fn is_proper(candidate: CandidateModel) -> bool {
    candidate.port > 0 && candidate.confidence == source_confidence(candidate.source)
}

/// Whether every candidate is a proper one.
pub open spec fn all_proper(v: Seq<CandidateModel>) -> bool {
    forall|i: int| 0 <= i < v.len() ==> is_proper(#[trigger] v[i])
}

/// The candidates of a source are proper ones.
proof fn lemma_source_candidates(source: PortSource, files: Seq<FileEntry>, n: int)
    ensures
        all_proper(source_candidates(source, files, n)),
    decreases n,
{
    if n > 0 {
        lemma_source_candidates(source, files, n - 1);
        let name = source_files(source)[n - 1];
        if let FileModel::Text(contents) = file_named(files, name) {
            lemma_ports_in(source, contents);
            let found = ports_in(source, contents);
            let added = file_candidates(source, name, found);
            assert forall|i: int| 0 <= i < added.len() implies is_proper(#[trigger] added[i]) by {
                assert(found[i].0 > 0);
            }
        }
    }
}

/// The candidates of a script are proper ones.
proof fn lemma_script_candidates(key: Seq<char>, script: Option<Seq<char>>)
    ensures
        all_proper(optional_script_candidates(key, script)),
{
    if let Some(text) = script {
        law_script_ports_are_distinct(text);
        let ports = script_ports(text);
        let added = optional_script_candidates(key, script);
        assert forall|i: int| 0 <= i < added.len() implies is_proper(#[trigger] added[i]) by {
            assert(ports[i] > 0);
        }
    }
}

/// Every candidate is for a port that can be listened on, so zero is never suggested, and as likely
/// as its source makes it.
pub proof fn law_candidates_are_proper(files: Seq<FileEntry>)
    ensures
        all_proper(directory_candidates(files)),
{
    lemma_source_candidates(PortSource::Env, files, source_files(PortSource::Env).len() as int);
    lemma_source_candidates(
        PortSource::EsbuildConfig,
        files,
        source_files(PortSource::EsbuildConfig).len() as int,
    );
    lemma_source_candidates(
        PortSource::ViteConfig,
        files,
        source_files(PortSource::ViteConfig).len() as int,
    );
    lemma_source_candidates(
        PortSource::DockerCompose,
        files,
        source_files(PortSource::DockerCompose).len() as int,
    );
    if let FileModel::Text(contents) = file_named(files, "package.json"@) {
        if let Ok(manifest) = manifest_in(contents) {
            lemma_script_candidates("dev"@, manifest.dev);
            lemma_script_candidates("start"@, manifest.start);
            lemma_script_candidates("serve"@, manifest.serve);
        }
    }
}

/// Where an environment file sets a port, such a port is suggested first.
pub proof fn law_environment_decides(files: Seq<FileEntry>, result: Seq<CandidateModel>)
    requires
        is_ranking(result, directory_candidates(files)),
        all_candidates(PortSource::Env, files).len() > 0,
    ensures
        result.len() > 0,
        result[0].source is Env,
{
    let v = directory_candidates(files);
    let n = v.len() as int;
    law_candidates_are_proper(files);
    lemma_env_candidates(files, source_files(PortSource::Env).len() as int);
    assert(v[0] == all_candidates(PortSource::Env, files)[0]);
    law_best_candidate_comes_first(result, v, 0);
    assert(is_proper(v[0]));
    assert(is_chosen(v, n, result[0]));
    let k = choose|k: int| #[trigger] chosen_at(v, n, k, result[0]);
    assert(is_proper(v[k]));
}

/// The candidates of environment files come from there.
proof fn lemma_env_candidates(files: Seq<FileEntry>, n: int)
    ensures
        forall|i: int|
            0 <= i < source_candidates(PortSource::Env, files, n).len() ==> (
            #[trigger] source_candidates(PortSource::Env, files, n)[i]).source is Env,
    decreases n,
{
    if n > 0 {
        lemma_env_candidates(files, n - 1);
    }
}

/// The more trusted of two sources is the one that comes first.
pub proof fn law_confidence_follows_priority(a: PortSource, b: PortSource)
    ensures
        source_priority(a) < source_priority(b) <==> source_confidence(a) > source_confidence(b),
{
}

} // verus!
