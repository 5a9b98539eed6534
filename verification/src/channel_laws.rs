//! What is written and read on the control channel.

use vstd::prelude::*;
use vstd::utf8::encode_utf8;

use crate::control::{
    authenticated, bare_end, called_command, candidate_taken, candidate_turn, field_key,
    field_value, find_white, fnv_hash, hex_bytes, json_char, json_inside, json_text, leading_value,
    refusal_reply, reply_meaning, state_directories, state_files, state_name, state_taken,
    Candidate, Command, EnvironmentModel, RefusalModel, SendingModel,
};
use crate::encoding_laws::law_hexadecimal_digits_count_sixteens;
use crate::number::{fixed_hex, parse_unsigned};
use crate::path::{components, join_path};
use crate::reload::{message, ReloadModel};
use crate::text::{
    find_char, is_white, lemma_find_char, lemma_find_char_is, lemma_find_from, lemma_find_is,
    occurs_at, trim,
};
use crate::text_laws::{
    all_white, law_small_letters_compare_by_letter, law_trimming_takes_the_white_space_around,
    reads_as,
};

verus! {

/* -------------------------------------------------------------------- commands */

/// A command is called by its name, in letters of any case and with any white
/// space around it, and by nothing else.
pub proof fn law_commands_are_called_in_any_case(
    before: Seq<char>,
    word: Seq<char>,
    after: Seq<char>,
)
    requires
        all_white(before),
        all_white(after),
        word.len() > 0 ==> !is_white(word[0]) && !is_white(word.last()),
    ensures
        ({
            let called = called_command(before + word + after);
            &&& reads_as(word, seq!['s', 't', 'a', 'r', 't']) == (called == Some(Command::Start))
            &&& reads_as(word, seq!['s', 't', 'o', 'p']) == (called == Some(Command::Stop))
            &&& reads_as(word, seq!['t', 'o', 'g', 'g', 'l', 'e']) == (called == Some(
                Command::Toggle,
            ))
            &&& reads_as(word, seq!['g', 'o']) == (called == Some(Command::Go))
            &&& reads_as(word, seq!['o', 'p', 'e', 'n']) == (called == Some(Command::Open))
            &&& reads_as(word, seq!['s', 't', 'a', 't', 'u', 's']) == (called == Some(
                Command::Status,
            ))
        }),
{
    law_trimming_takes_the_white_space_around(before, word, after);
    reveal_strlit("start");
    reveal_strlit("stop");
    reveal_strlit("toggle");
    reveal_strlit("go");
    reveal_strlit("open");
    reveal_strlit("status");
    assert("start"@ =~= seq!['s', 't', 'a', 'r', 't']);
    assert("stop"@ =~= seq!['s', 't', 'o', 'p']);
    assert("toggle"@ =~= seq!['t', 'o', 'g', 'g', 'l', 'e']);
    assert("go"@ =~= seq!['g', 'o']);
    assert("open"@ =~= seq!['o', 'p', 'e', 'n']);
    assert("status"@ =~= seq!['s', 't', 'a', 't', 'u', 's']);
    law_small_letters_compare_by_letter(word, "start"@);
    law_small_letters_compare_by_letter(word, "stop"@);
    law_small_letters_compare_by_letter(word, "toggle"@);
    law_small_letters_compare_by_letter(word, "go"@);
    law_small_letters_compare_by_letter(word, "open"@);
    law_small_letters_compare_by_letter(word, "status"@);
    assert("stop"@[0] == 's' && "open"@[0] == 'o');
    assert("toggle"@[0] == 't' && "status"@[0] == 's');
    assert("start"@.len() == 5 && "go"@.len() == 2);
}

proof fn lemma_find_white_is(s: Seq<char>, from: int, at: int)
    requires
        0 <= from <= at <= s.len(),
        forall|i: int| from <= i < at ==> !is_white(#[trigger] s[i]),
        at < s.len() ==> is_white(s[at]),
    ensures
        find_white(s, from) == if at < s.len() {
            Some(at)
        } else {
            None
        },
    decreases at - from,
{
    if from < at {
        assert(!is_white(s[from]));
        lemma_find_white_is(s, from + 1, at);
    }
}

/// A line is a token, white space and a command, with white space around the
/// whole or not: it is run where the token is the secret and the command is one
/// that there is. A line that holds no white space inside is no request.
pub proof fn law_a_line_is_a_token_and_a_command(
    before: Seq<char>,
    token: Seq<char>,
    gap: char,
    command: Seq<char>,
    after: Seq<char>,
    secret: Seq<char>,
)
    requires
        all_white(before),
        all_white(after),
        token.len() > 0,
        forall|i: int| 0 <= i < token.len() ==> !is_white(#[trigger] token[i]),
        is_white(gap),
        command.len() > 0,
        !is_white(command.last()),
    ensures
        authenticated(before + (token + seq![gap] + command) + after, secret) == if token
            != secret {
            Err::<Command, RefusalModel>(RefusalModel::BadToken)
        } else {
            match called_command(command) {
                Some(found) => Ok::<Command, RefusalModel>(found),
                None => Err::<Command, RefusalModel>(RefusalModel::Unknown(command)),
            }
        },
        authenticated(before + token + after, secret) == Err::<Command, RefusalModel>(
            RefusalModel::Malformed,
        ),
{
    let bare = token + seq![gap] + command;
    let n = token.len() as int;
    assert(bare[0] == token[0] && bare.last() == command.last());
    law_trimming_takes_the_white_space_around(before, bare, after);
    law_trimming_takes_the_white_space_around(before, token, after);
    assert forall|i: int| 0 <= i < n implies !is_white(#[trigger] bare[i]) by {
        assert(bare[i] == token[i]);
    }
    lemma_find_white_is(bare, 0, n);
    lemma_find_white_is(token, 0, n);
    assert(bare.take(n) =~= token);
    assert(bare.skip(n + 1) =~= command);
}

/// A line of white space is no request.
pub proof fn law_an_empty_line_is_no_request(line: Seq<char>, secret: Seq<char>)
    requires
        all_white(line),
    ensures
        authenticated(line, secret) == Err::<Command, RefusalModel>(RefusalModel::Malformed),
{
    let none = Seq::<char>::empty();
    law_trimming_takes_the_white_space_around(line, none, none);
    assert(line + none + none =~= line);
    lemma_find_white_is(none, 0, 0);
}

/// A reply that begins with `error: ` reports what follows, any other is what was
/// done; white space around it does not count.
pub proof fn law_replies_report_errors(before: Seq<char>, text: Seq<char>, after: Seq<char>)
    requires
        all_white(before),
        all_white(after),
        text.len() > 0,
        !is_white(text.last()),
    ensures
        reply_meaning(before + ("error: "@ + text) + after) == Err::<Seq<char>, Seq<char>>(text),
        !is_white(text[0]) && (text.len() < 7 || text.take(7) != "error: "@) ==> reply_meaning(
            before + text + after,
        ) == Ok::<Seq<char>, Seq<char>>(text),
{
    reveal_strlit("error: ");
    let bad = "error: "@ + text;
    assert(bad[0] == 'e' && bad.last() == text.last());
    law_trimming_takes_the_white_space_around(before, bad, after);
    assert(bad.subrange(0, 7) =~= "error: "@);
    assert(bad.skip(7) =~= text);
    if !is_white(text[0]) {
        law_trimming_takes_the_white_space_around(before, text, after);
        if text.len() >= 7 {
            assert(text.subrange(0, 7) =~= text.take(7));
        }
    }
}

/// Whatever is turned down is reported as an error, and it is said why.
pub proof fn law_refusals_are_errors(refusal: RefusalModel)
    ensures
        refusal_reply(refusal).len() >= 7,
        refusal_reply(refusal).take(7) == "error: "@,
        refusal is Malformed ==> refusal_reply(refusal).skip(7) == "malformed request"@,
        refusal is BadToken ==> refusal_reply(refusal).skip(7) == "bad token"@,
        refusal matches RefusalModel::Unknown(command) ==> refusal_reply(refusal).skip(7)
            == "unknown command "@ + crate::quote::quoted(command),
{
    reveal_strlit("error: ");
    reveal_strlit("error: malformed request");
    reveal_strlit("malformed request");
    reveal_strlit("error: bad token");
    reveal_strlit("bad token");
    reveal_strlit("error: unknown command ");
    reveal_strlit("unknown command ");
    let reply = refusal_reply(refusal);
    assert(reply.take(7) =~= "error: "@);
    match refusal {
        RefusalModel::Malformed => {
            assert(reply.skip(7) =~= "malformed request"@);
        },
        RefusalModel::BadToken => {
            assert(reply.skip(7) =~= "bad token"@);
        },
        RefusalModel::Unknown(command) => {
            assert(reply.skip(7) =~= "unknown command "@ + crate::quote::quoted(command));
        },
    }
}

/* ------------------------------------------------------------------ state files */

/// State files go below the runtime directory that the environment names, else
/// below the conventional one, and are looked for below the directory for
/// temporary files as well.
pub proof fn law_where_state_files_go(environment: EnvironmentModel)
    ensures
        ({
            let dirs = state_directories(environment);
            let temporary = join_path(environment.temporary, "live-reload"@);
            let preferred = match environment.runtime {
                Some(runtime) => Some(join_path(runtime, "live-reload"@)),
                None => match environment.conventional {
                    Some(conventional) => Some(join_path(conventional, "live-reload"@)),
                    None => None,
                },
            };
            &&& dirs.len() > 0
            &&& dirs[0] == match preferred {
                Some(dir) => dir,
                None => temporary,
            }
            &&& components(dirs.last()) == components(temporary)
            &&& dirs.len() == 1 <==> components(dirs[0]) == components(temporary)
            &&& dirs.len() <= 2
        }),
{
}

/// A state file is named by sixteen digits that the workspace gives, the same in
/// every directory.
pub proof fn law_state_files_are_named_by_hash(
    workspace: Seq<char>,
    environment: EnvironmentModel,
    k: int,
    i: int,
)
    requires
        0 <= k < state_directories(environment).len(),
        0 <= i < 16,
    ensures
        state_files(workspace, environment).len() == state_directories(environment).len(),
        state_files(workspace, environment)[k] == join_path(
            state_directories(environment)[k],
            state_name(workspace),
        ),
        state_name(workspace).len() == 21,
        state_name(workspace)[i] == "0123456789abcdef"@[(fnv_hash(encode_utf8(workspace)) as int
            / crate::encoding_laws::sixteens((15 - i) as nat) as int) % 16],
        state_name(workspace).skip(16) == ".json"@,
{
    reveal_strlit(".json");
    law_hexadecimal_digits_count_sixteens(fnv_hash(encode_utf8(workspace)) as nat, 16, i);
    assert(state_name(workspace).skip(16) =~= ".json"@);
}

/// The hash begins with a number, and takes in each byte by mixing it in and
/// multiplying, as FNV-1a does.
pub proof fn law_the_hash_takes_in_each_byte(bytes: Seq<u8>, b: u8)
    ensures
        fnv_hash(Seq::<u8>::empty()) == 14695981039346656037u64,
        fnv_hash(bytes.push(b)) as int == ((fnv_hash(bytes) ^ (b as u64)) * 1099511628211int)
            % 0x1_0000_0000_0000_0000int,
{
    assert(bytes.push(b).drop_last() =~= bytes);
    let mixed = fnv_hash(bytes) ^ (b as u64);
    assert(fnv_hash(bytes.push(b)) == mixed.wrapping_mul(0x0000_0100_0000_01b3));
}

/// JSON is written character by character: quotes, backslashes and what controls
/// a terminal are escaped, and all else stands for itself.
pub proof fn law_json_goes_by_character(a: Seq<char>, c: char, b: Seq<char>)
    ensures
        json_inside(Seq::<char>::empty()) == Seq::<char>::empty(),
        json_inside(a + seq![c] + b) == json_inside(a) + (if c == '"' {
            seq!['\\', '"']
        } else if c == '\\' {
            seq!['\\', '\\']
        } else if c == '\n' {
            seq!['\\', 'n']
        } else if c == '\r' {
            seq!['\\', 'r']
        } else if c == '\t' {
            seq!['\\', 't']
        } else if (c as u32) < 0x20 {
            seq![
                '\\',
                'u',
                '0',
                '0',
                "0123456789abcdef"@[c as int / 16],
                "0123456789abcdef"@[c as int % 16],
            ]
        } else {
            seq![c]
        }) + json_inside(b),
        json_text(a) == seq!['"'] + json_inside(a) + seq!['"'],
    decreases b.len(),
{
    let all = a + seq![c] + b;
    if (c as u32) < 0x20 {
        lemma_four_digits(c as nat);
    }
    if b.len() == 0 {
        assert(all.drop_last() =~= a);
        assert(all.last() == c);
        assert(json_inside(all) =~= json_inside(a) + json_char(c) + json_inside(b));
    } else {
        law_json_goes_by_character(a, c, b.drop_last());
        assert(all.drop_last() =~= a + seq![c] + b.drop_last());
        assert(all.last() == b.last());
        let own = json_char(c);
        assert(json_inside(all) =~= json_inside(a) + own + json_inside(b));
    }
}

proof fn lemma_four_digits(n: nat)
    requires
        n < 32,
    ensures
        seq!['\\', 'u'] + fixed_hex(n, 4) == seq![
            '\\',
            'u',
            '0',
            '0',
            "0123456789abcdef"@[n as int / 16],
            "0123456789abcdef"@[n as int % 16],
        ],
{
    reveal_strlit("0123456789abcdef");
    reveal_with_fuel(fixed_hex, 5);
    assert(n / 16 / 16 == 0);
    let s = fixed_hex(n, 4);
    assert(s.len() == 4);
    assert(seq!['\\', 'u'] + s =~= seq![
        '\\',
        'u',
        '0',
        '0',
        "0123456789abcdef"@[n as int / 16],
        "0123456789abcdef"@[n as int % 16],
    ]);
}

/// A token writes two digits for each byte, the high one first.
pub proof fn law_tokens_write_each_byte(bytes: Seq<u8>, i: int)
    ensures
        hex_bytes(bytes).len() == 2 * bytes.len(),
        0 <= i < bytes.len() ==> hex_bytes(bytes)[2 * i] == "0123456789abcdef"@[bytes[i] as int
            / 16] && hex_bytes(bytes)[2 * i + 1] == "0123456789abcdef"@[bytes[i] as int % 16],
    decreases bytes.len(),
{
    if bytes.len() > 0 {
        let front = bytes.drop_last();
        let last = bytes.last();
        law_tokens_write_each_byte(front, i);
        lemma_two_digits(last as nat);
        if 0 <= i < front.len() {
            assert(hex_bytes(bytes)[2 * i] == hex_bytes(front)[2 * i]);
            assert(hex_bytes(bytes)[2 * i + 1] == hex_bytes(front)[2 * i + 1]);
        } else if i == front.len() {
            assert(hex_bytes(bytes)[2 * i] == fixed_hex(last as nat, 2)[0]);
            assert(hex_bytes(bytes)[2 * i + 1] == fixed_hex(last as nat, 2)[1]);
        }
    }
}

proof fn lemma_two_digits(n: nat)
    requires
        n < 256,
    ensures
        fixed_hex(n, 2) == seq![
            "0123456789abcdef"@[n as int / 16],
            "0123456789abcdef"@[n as int % 16],
        ],
{
    reveal_strlit("0123456789abcdef");
    reveal_with_fuel(fixed_hex, 3);
    assert(fixed_hex(n, 2) =~= seq![
        "0123456789abcdef"@[n as int / 16],
        "0123456789abcdef"@[n as int % 16],
    ]);
}

/// Whether a text begins with a field and what follows: the first place where the
/// key stands, in quotes and with a colon, is behind `before`.
pub open spec fn first_field(before: Seq<char>, key: Seq<char>, rest: Seq<char>) -> bool {
    forall|j: int|
        0 <= j < before.len() ==> !occurs_at(
            before + (seq!['"'] + key + seq!['"', ':']) + rest,
            seq!['"'] + key + seq!['"', ':'],
            j,
        )
}

/// A field's value is what stands in quotes behind its key, wherever that is; or,
/// without quotes, what stands up to the next comma or brace, trimmed.
pub proof fn law_fields_are_found_by_their_key(
    before: Seq<char>,
    key: Seq<char>,
    value: Seq<char>,
    end: char,
    rest: Seq<char>,
)
    requires
        end == ',' || end == '}',
    ensures
        ({
            let name = seq!['"'] + key + seq!['"', ':'];
            let quoted = seq!['"'] + value + seq!['"'] + rest;
            let bare = value + seq![end] + rest;
            &&& first_field(before, key, quoted) && !value.contains('"') ==> field_value(
                before + name + quoted,
                key,
            ) == Some(value)
            &&& first_field(before, key, bare) && !value.contains(',') && !value.contains('}') && (
            value.len() == 0 || value[0] != '"') ==> field_value(before + name + bare, key) == Some(
                trim(value),
            )
        }),
{
    let name = seq!['"'] + key + seq!['"', ':'];
    let quoted = seq!['"'] + value + seq!['"'] + rest;
    let bare = value + seq![end] + rest;
    assert(field_key(key) =~= name);
    if first_field(before, key, quoted) && !value.contains('"') {
        lemma_field_at(before, key, quoted);
        let n = (value.len() + 1) as int;
        assert forall|j: int| 1 <= j < n implies quoted[j] != '"' by {
            assert(quoted[j] == value[j - 1]);
            assert(value.contains(value[j - 1]));
        }
        assert(quoted[n] == '"');
        lemma_find_char_is(quoted, '"', 1, n);
        assert(quoted.subrange(1, n) =~= value);
    }
    if first_field(before, key, bare) && !value.contains(',') && !value.contains('}') && (
    value.len() == 0 || value[0] != '"') {
        lemma_field_at(before, key, bare);
        let n = value.len() as int;
        assert forall|j: int| 0 <= j < n implies #[trigger] bare[j] != ',' && bare[j] != '}' by {
            assert(bare[j] == value[j]);
            assert(value.contains(value[j]));
        }
        assert(bare[n] == end);
        if n > 0 {
            assert(bare[0] == value[0]);
        }
        lemma_bare_end_is(bare, 0, n);
        assert(bare.take(n) =~= value);
    }
}

/// A value that does not end, in quotes or without, is none.
pub proof fn law_fields_have_an_end(before: Seq<char>, key: Seq<char>, rest: Seq<char>)
    requires
        first_field(before, key, rest),
    ensures
        ({
            let json = before + (seq!['"'] + key + seq!['"', ':']) + rest;
            &&& rest.len() > 0 && rest[0] == '"' && !rest.skip(1).contains('"') ==> field_value(
                json,
                key,
            ) is None
            &&& !rest.contains('"') && !rest.contains(',') && !rest.contains('}') ==> field_value(
                json,
                key,
            ) is None
        }),
{
    lemma_field_at(before, key, rest);
    if rest.len() > 0 && rest[0] == '"' {
        lemma_find_char(rest, '"', 1);
        if let Some(at) = find_char(rest, '"', 1) {
            assert(rest.skip(1)[at - 1] == '"');
        }
    }
    if !rest.contains('"') && !rest.contains(',') && !rest.contains('}') {
        lemma_no_bare_end(rest, 0);
        if rest.len() > 0 {
            assert(rest.contains(rest[0]));
        }
    }
}

proof fn lemma_no_bare_end(s: Seq<char>, from: int)
    requires
        0 <= from,
        !s.contains(','),
        !s.contains('}'),
    ensures
        bare_end(s, from) is None,
    decreases s.len() - from,
{
    if from < s.len() {
        assert(s.contains(s[from]));
        lemma_no_bare_end(s, from + 1);
    }
}

proof fn lemma_field_at(before: Seq<char>, key: Seq<char>, rest: Seq<char>)
    requires
        first_field(before, key, rest),
    ensures
        field_value(before + (seq!['"'] + key + seq!['"', ':']) + rest, key) == leading_value(rest),
{
    let name = seq!['"'] + key + seq!['"', ':'];
    let json = before + name + rest;
    let at = before.len() as int;
    assert(field_key(key) =~= name);
    assert(json.subrange(at, at + name.len()) =~= name);
    assert(occurs_at(json, name, at));
    lemma_find_is(json, name, at);
    assert(json.skip(at + name.len()) =~= rest);
}

proof fn lemma_bare_end_is(s: Seq<char>, from: int, at: int)
    requires
        0 <= from <= at < s.len(),
        s[at] == ',' || s[at] == '}',
        forall|j: int| from <= j < at ==> #[trigger] s[j] != ',' && s[j] != '}',
    ensures
        bare_end(s, from) == Some(at),
    decreases at - from,
{
    if from < at {
        assert(s[from] != ',' && s[from] != '}');
        lemma_bare_end_is(s, from + 1, at);
    }
}

/// A field that is not there has no value, and a state file without a port and a
/// token leads nowhere.
pub proof fn law_missing_fields_have_no_value(json: Seq<char>, key: Seq<char>, index: int)
    ensures
        (forall|j: int| 0 <= j ==> !occurs_at(json, seq!['"'] + key + seq!['"', ':'], j))
            ==> field_value(json, key) is None,
        field_value(json, "control_port"@) is None || field_value(json, "token"@) is None
            ==> state_taken(json, index) == SendingModel::Failed("state file is malformed"@),
        field_value(json, "control_port"@) matches Some(number) ==> parse_unsigned(
            number,
            0xffff,
        ) is None ==> state_taken(json, index) == SendingModel::Failed(
            "state file is malformed"@,
        ),
{
    let name = seq!['"'] + key + seq!['"', ':'];
    assert(field_key(key) =~= name);
    lemma_find_from(json, name, 0);
}

/// The places where a state file may be are read one after the other: one that is
/// missing is passed over, the first that is there counts, and one that cannot be
/// read ends the search.
pub proof fn law_the_first_state_file_counts(
    workspace: Seq<char>,
    candidates: Seq<Seq<char>>,
    index: int,
    state: String,
    reason: String,
)
    requires
        0 <= index < candidates.len(),
    ensures
        candidate_turn(workspace, candidates.len() as int, 0) == SendingModel::Read(0),
        index + 1 < candidates.len() ==> candidate_taken(
            workspace,
            candidates,
            index,
            Candidate::Missing,
        ) == SendingModel::Read(index + 1),
        index + 1 == candidates.len() ==> candidate_taken(
            workspace,
            candidates,
            index,
            Candidate::Missing,
        ) == SendingModel::Failed(
            "no Live Reload server for "@ + workspace
                + ".\nThe editor has to be open on that project with a file open in it."@,
        ),
        candidate_taken(workspace, candidates, index, Candidate::Found(state)) == state_taken(
            state@,
            index,
        ),
        candidate_taken(workspace, candidates, index, Candidate::Unreadable(reason))
            == SendingModel::Failed(candidates[index] + ": "@ + reason@),
{
}

/* --------------------------------------------------------------------- messages */

/// An instruction reaches the browser as an object that names its kind and, for a
/// swap, the path.
pub proof fn law_instructions_are_written_as_objects(path: Seq<char>)
    ensures
        message(ReloadModel::Full) == "{\"type\":\"reload\"}"@,
        message(ReloadModel::Css(path)) == "{\"type\":\"css\",\"path\":"@ + json_text(path) + "}"@,
        message(ReloadModel::Image(path)) == "{\"type\":\"image\",\"path\":"@ + json_text(path)
            + "}"@,
{
    reveal_strlit("{\"type\":\"css\",\"path\":\"");
    reveal_strlit("{\"type\":\"css\",\"path\":");
    reveal_strlit("{\"type\":\"image\",\"path\":\"");
    reveal_strlit("{\"type\":\"image\",\"path\":");
    reveal_strlit("\"}");
    reveal_strlit("}");
    assert(message(ReloadModel::Css(path)) =~= "{\"type\":\"css\",\"path\":"@ + json_text(path)
        + "}"@);
    assert(message(ReloadModel::Image(path)) =~= "{\"type\":\"image\",\"path\":"@ + json_text(path)
        + "}"@);
}

} // verus!
