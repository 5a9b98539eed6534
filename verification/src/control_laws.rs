//! What holds between the two ends of the control channel.

use vstd::prelude::*;
use vstd::utf8::encode_utf8;

use crate::control::{
    authenticated, bare_end, called_command, command_name, field_key, field_value, find_white,
    fnv_hash, hex_bytes, json_char, json_inside, json_text, request_text, state_directories,
    state_files, state_name, state_taken, state_text, Command, EnvironmentModel, RefusalModel,
    SendingModel,
};
use crate::number::{
    decimal, fixed_hex, is_digit, law_decimal_reads_back, lemma_decimal, lemma_hex_injective,
};
use crate::path::{components, file_name};
use crate::path_laws::{is_name, law_join_adds_a_component};
use crate::text::{
    find_from, is_white, lemma_find_char_is, lemma_find_is, lower, occurs_at, trim, trim_end,
    trim_start,
};

verus! {

/* ------------------------------------------------------------------- commands */

/// A text that neither begins nor ends with white space is not changed by
/// trimming.
pub proof fn lemma_trim_nothing(s: Seq<char>)
    requires
        s.len() > 0 ==> !is_white(s[0]) && !is_white(s.last()),
    ensures
        trim(s) == s,
{
}

proof fn lemma_name(command: Command)
    ensures
        ({
            let name = command_name(command);
            &&& name.len() > 0
            &&& forall|i: int| 0 <= i < name.len() ==> 'a' <= #[trigger] name[i] <= 'z'
        }),
{
    reveal_strlit("start");
    reveal_strlit("stop");
    reveal_strlit("toggle");
    reveal_strlit("go");
    reveal_strlit("open");
    reveal_strlit("status");
}

/// Every command is called by its own name.
pub proof fn law_command_names_round_trip(command: Command)
    ensures
        called_command(command_name(command)) == Some(command),
{
    let name = command_name(command);
    lemma_name(command);
    assert('a' <= name[0] <= 'z');
    assert('a' <= name[name.len() - 1] <= 'z');
    lemma_trim_nothing(name);
    assert(lower(name) =~= name);
    reveal_strlit("start");
    reveal_strlit("stop");
    reveal_strlit("toggle");
    reveal_strlit("go");
    reveal_strlit("open");
    reveal_strlit("status");
    assert("start"@[2] == 'a' && "start"@.len() == 5);
    assert("stop"@[0] == 's' && "stop"@.len() == 4);
    assert("toggle"@[0] == 't' && "toggle"@.len() == 6);
    assert("go"@.len() == 2);
    assert("open"@[0] == 'o' && "open"@.len() == 4);
    assert("status"@[0] == 's' && "status"@.len() == 6);
}

/* ------------------------------------------------------------------- requests */

/// Whether a text can be a token: there is something of it, and no white space
/// in it.
pub open spec fn is_token(s: Seq<char>) -> bool {
    s.len() > 0 && forall|i: int| 0 <= i < s.len() ==> !is_white(#[trigger] s[i])
}

proof fn lemma_find_white(s: Seq<char>, from: int, at: int)
    requires
        0 <= from <= at < s.len(),
        is_white(s[at]),
        forall|i: int| from <= i < at ==> !is_white(#[trigger] s[i]),
    ensures
        find_white(s, from) == Some(at),
    decreases at - from,
{
    if from < at {
        lemma_find_white(s, from + 1, at);
    }
}

/// A command that is sent with a server's own token is the command that the
/// server runs.
pub proof fn law_commands_reach_the_server(token: Seq<char>, command: Command)
    requires
        is_token(token),
    ensures
        authenticated(request_text(token, command), token) == Ok::<Command, RefusalModel>(command),
{
    let name = command_name(command);
    lemma_name(command);
    reveal_strlit(" ");
    reveal_strlit("\n");
    let line = request_text(token, command);
    let bare = token + " "@ + name;
    assert(line =~= bare.push('\n'));
    assert(line[0] == token[0]);
    assert(!is_white(token[0]));
    assert(trim_start(line) == line);
    assert(line.last() == '\n');
    assert(line.drop_last() =~= bare);
    assert(bare.last() == name[name.len() - 1]);
    assert(trim_end(bare) == bare);
    assert(trim_end(line) == bare);
    let at = token.len() as int;
    assert(bare[at] == ' ');
    assert forall|i: int| 0 <= i < at implies !is_white(#[trigger] bare[i]) by {
        assert(bare[i] == token[i]);
    }
    lemma_find_white(bare, 0, at);
    assert(bare.take(at) =~= token);
    assert(bare.skip(at + 1) =~= name);
    law_command_names_round_trip(command);
}

/// A line that one secret lets through is refused under every other.
pub proof fn law_a_wrong_token_is_refused(line: Seq<char>, secret: Seq<char>, other: Seq<char>)
    requires
        authenticated(line, secret) is Ok,
        other != secret,
    ensures
        authenticated(line, other) == Err::<Command, RefusalModel>(RefusalModel::BadToken),
{
}

/* ------------------------------------------------------------------ state file */

/// Whether a text holds no double quote.
pub open spec fn is_unquoted(s: Seq<char>) -> bool {
    forall|i: int| 0 <= i < s.len() ==> #[trigger] s[i] != '"'
}

proof fn lemma_bare_end(s: Seq<char>, from: int, at: int)
    requires
        0 <= from <= at < s.len(),
        s[at] == ',',
        forall|i: int| from <= i < at ==> is_digit(#[trigger] s[i]),
    ensures
        bare_end(s, from) == Some(at),
    decreases at - from,
{
    if from < at {
        assert(is_digit(s[from]));
        lemma_bare_end(s, from + 1, at);
    }
}

/// The port that is written to a state file is read back out of it.
pub proof fn law_the_port_reads_back(port: u16, token: Seq<char>, workspace: Seq<char>)
    ensures
        field_value(state_text(port, token, workspace), "control_port"@) == Some(
            decimal(port as nat),
        ),
{
    let json = state_text(port, token, workspace);
    let number = decimal(port as nat);
    let key = field_key("control_port"@);
    lemma_decimal(port as nat);
    reveal_strlit("{\"control_port\":");
    reveal_strlit("control_port");
    reveal_strlit(",\"token\":\"");
    let opening = "{\"control_port\":"@;
    assert(opening.len() == 16);
    assert(key.len() == 15);
    assert(key =~= opening.skip(1));
    assert(json.subrange(1, 16) =~= key);
    assert(occurs_at(json, key, 1));
    assert(!occurs_at(json, key, 0)) by {
        assert(json[0] == '{');
        assert(key[0] == '"');
        assert(json.subrange(0, 15)[0] == json[0]);
    }
    lemma_find_is(json, key, 1);
    let rest = json.skip(16);
    let n = number.len() as int;
    assert forall|i: int| 0 <= i < n implies is_digit(#[trigger] rest[i]) by {
        assert(rest[i] == number[i]);
    }
    assert(rest[n] == ",\"token\":\""@[0]);
    assert(is_digit(rest[0]));
    lemma_bare_end(rest, 0, n);
    assert(rest.take(n) =~= number);
    assert(is_digit(number[0]) && is_digit(number[n - 1]));
    lemma_trim_nothing(number);
}

proof fn lemma_token_key(port: u16, token: Seq<char>, workspace: Seq<char>)
    ensures
        find_from(state_text(port, token, workspace), field_key("token"@), 0) == Some(
            (17 + decimal(port as nat).len()) as int,
        ),
        field_key("token"@).len() == 8,
{
    let json = state_text(port, token, workspace);
    let number = decimal(port as nat);
    let n = number.len() as int;
    let key = field_key("token"@);
    lemma_decimal(port as nat);
    reveal_strlit("{\"control_port\":");
    reveal_strlit("token");
    reveal_strlit(",\"token\":\"");
    let opening = "{\"control_port\":"@;
    let middle = ",\"token\":\""@;
    assert(opening.len() == 16);
    assert(middle.len() == 10);
    assert(key.len() == 8);
    assert(key =~= middle.subrange(1, 9));
    let at = 17 + n;
    assert(json.subrange(at, at + 8) =~= key);
    assert forall|j: int| 0 <= j < at implies !occurs_at(json, key, j) by {
        if occurs_at(json, key, j) {
            let here = json.subrange(j, j + key.len());
            assert(here[0] == json[j]);
            assert(here[1] == json[j + 1]);
            assert(key[0] == '"' && key[1] == 't');
            if j < 16 {
                assert(json[j] == opening[j]);
                if j < 15 {
                    assert(json[j + 1] == opening[j + 1]);
                }
            } else if j < 16 + n {
                assert(json[j] == number[j - 16]);
                assert(is_digit(number[j - 16]));
            } else {
                assert(json[j] == middle[0]);
            }
        }
    }
    lemma_find_is(json, key, at);
}

/// The token that is written to a state file is read back out of it.
pub proof fn law_the_token_reads_back(port: u16, token: Seq<char>, workspace: Seq<char>)
    requires
        is_unquoted(token),
    ensures
        field_value(state_text(port, token, workspace), "token"@) == Some(token),
{
    let json = state_text(port, token, workspace);
    let number = decimal(port as nat);
    let n = number.len() as int;
    lemma_token_key(port, token, workspace);
    reveal_strlit("{\"control_port\":");
    reveal_strlit(",\"token\":\"");
    reveal_strlit("\",\"workspace\":");
    let opening = "{\"control_port\":"@;
    let middle = ",\"token\":\""@;
    let closing = "\",\"workspace\":"@;
    assert(opening.len() == 16);
    assert(middle.len() == 10);
    let rest = json.skip(25 + n);
    assert(rest[0] == middle[9]);
    let t = token.len() as int;
    assert forall|i: int| 1 <= i < 1 + t implies rest[i] != '"' by {
        assert(rest[i] == token[i - 1]);
    }
    assert(rest[1 + t] == closing[0]);
    lemma_find_char_is(rest, '"', 1, 1 + t);
    assert(rest.subrange(1, 1 + t) =~= token);
}

/// A client that reads a state file reaches the server that wrote it: it finds
/// the port and the token that the server put there.
pub proof fn law_the_state_file_leads_to_its_server(
    port: u16,
    token: Seq<char>,
    workspace: Seq<char>,
    index: int,
)
    requires
        is_unquoted(token),
    ensures
        state_taken(state_text(port, token, workspace), index) == (SendingModel::Connect {
            candidate: index,
            port,
            secret: token,
        }),
{
    law_the_port_reads_back(port, token, workspace);
    law_the_token_reads_back(port, token, workspace);
    law_decimal_reads_back(port as nat, u16::MAX as nat);
}

/// Whether a character stands for itself in a JSON string.
pub open spec fn stands_for_itself(c: char) -> bool {
    c != '"' && c != '\\' && c as u32 >= 0x20
}

proof fn lemma_json_plain(s: Seq<char>)
    requires
        forall|i: int| 0 <= i < s.len() ==> stands_for_itself(#[trigger] s[i]),
    ensures
        json_inside(s) == s,
    decreases s.len(),
{
    if s.len() > 0 {
        let front = s.drop_last();
        assert forall|i: int| 0 <= i < front.len() implies stands_for_itself(#[trigger] front[i]) by {
            assert(front[i] == s[i]);
        }
        lemma_json_plain(front);
        assert(stands_for_itself(s[s.len() - 1]));
        assert(json_inside(s) =~= s);
    } else {
        assert(json_inside(s) =~= s);
    }
}

/// A workspace whose path needs no escapes is read back out of the state file.
pub proof fn law_plain_workspaces_read_back(port: u16, token: Seq<char>, workspace: Seq<char>)
    requires
        is_unquoted(token),
        forall|i: int| 0 <= i < workspace.len() ==> stands_for_itself(#[trigger] workspace[i]),
    ensures
        field_value(state_text(port, token, workspace), "workspace"@) == Some(workspace),
{
    let json = state_text(port, token, workspace);
    let number = decimal(port as nat);
    let n = number.len() as int;
    let t = token.len() as int;
    let w = workspace.len() as int;
    lemma_decimal(port as nat);
    lemma_json_plain(workspace);
    reveal_strlit("{\"control_port\":");
    reveal_strlit("workspace");
    reveal_strlit(",\"token\":\"");
    reveal_strlit("\",\"workspace\":");
    let opening = "{\"control_port\":"@;
    let middle = ",\"token\":\""@;
    let closing = "\",\"workspace\":"@;
    let key = field_key("workspace"@);
    assert(opening.len() == 16 && middle.len() == 10 && closing.len() == 14);
    assert(key.len() == 12);
    assert(key =~= closing.subrange(2, 14));
    // The closing quote of the token stands here, and the key two places on.
    let quote = 26 + n + t;
    let at = quote + 2;
    assert(json.subrange(at, at + 12) =~= key);
    assert(json[quote] == closing[0] && json[quote + 1] == closing[1]);
    assert forall|j: int| 0 <= j < at implies !occurs_at(json, key, j) by {
        if occurs_at(json, key, j) {
            let here = json.subrange(j, j + key.len());
            assert(here[0] == json[j] && here[1] == json[j + 1]);
            assert(here[10] == json[j + 10] && here[11] == json[j + 11]);
            assert(key[0] == '"' && key[1] == 'w' && key[10] == '"' && key[11] == ':');
            if j < 16 {
                assert(json[j] == opening[j]);
                if j < 15 {
                    assert(json[j + 1] == opening[j + 1]);
                }
            } else if j < 16 + n {
                assert(json[j] == number[j - 16]);
                assert(is_digit(number[j - 16]));
            } else if j < 25 + n {
                assert(json[j] == middle[j - 16 - n]);
                assert(json[j + 1] == middle[j + 1 - 16 - n]);
            } else if j == 25 + n {
                // From the quote that opens the token, the key would have to
                // close at the quote that closes it; but no colon follows that.
                if j + 10 < quote {
                    assert(json[j + 10] == token[j + 10 - 26 - n]);
                } else if j + 10 == quote {
                    assert(json[j + 11] == ',');
                } else {
                    assert(quote - j < 10);
                    assert(here[quote - j] == json[quote]);
                    assert(key[quote - j] != '"');
                }
            } else if j < quote {
                assert(json[j] == token[j - 26 - n]);
            } else {
                assert(json[j + 1] == closing[j + 1 - quote]);
            }
        }
    }
    lemma_find_is(json, key, at);
    let rest = json.skip(at + 12);
    let quoted = json_text(workspace);
    assert(quoted.len() == w + 2);
    assert(forall|i: int| 0 <= i < w + 2 ==> rest[i] == quoted[i]);
    assert(rest[0] == quoted[0]);
    assert forall|i: int| 1 <= i < 1 + w implies rest[i] != '"' by {
        assert(rest[i] == quoted[i]);
        assert(quoted[i] == workspace[i - 1]);
        assert(stands_for_itself(workspace[i - 1]));
    }
    assert(rest[1 + w] == quoted[1 + w]);
    lemma_find_char_is(rest, '"', 1, 1 + w);
    assert(rest.subrange(1, 1 + w) =~= workspace);
}

/* ----------------------------------------------------------------- generated tokens */

/// Whether a character is a hexadecimal digit in small letters.
pub open spec fn is_hex_digit(c: char) -> bool {
    '0' <= c <= '9' || 'a' <= c <= 'f'
}

/// Hexadecimal text holds hexadecimal digits only.
pub proof fn lemma_fixed_hex(n: nat, width: nat)
    ensures
        fixed_hex(n, width).len() == width,
        forall|i: int| 0 <= i < width ==> is_hex_digit(#[trigger] fixed_hex(n, width)[i]),
    decreases width,
{
    if width > 0 {
        lemma_fixed_hex(n / 16, (width - 1) as nat);
        let front = fixed_hex(n / 16, (width - 1) as nat);
        let all = fixed_hex(n, width);
        assert forall|i: int| 0 <= i < width implies is_hex_digit(#[trigger] all[i]) by {
            if i < front.len() {
                assert(all[i] == front[i]);
            }
        }
    }
}

proof fn lemma_hex_bytes(bytes: Seq<u8>)
    ensures
        hex_bytes(bytes).len() == 2 * bytes.len(),
        forall|i: int|
            0 <= i < hex_bytes(bytes).len() ==> is_hex_digit(#[trigger] hex_bytes(bytes)[i]),
    decreases bytes.len(),
{
    if bytes.len() > 0 {
        let front = hex_bytes(bytes.drop_last());
        let last = fixed_hex(bytes.last() as nat, 2);
        lemma_hex_bytes(bytes.drop_last());
        lemma_fixed_hex(bytes.last() as nat, 2);
        let all = hex_bytes(bytes);
        assert forall|i: int| 0 <= i < all.len() implies is_hex_digit(#[trigger] all[i]) by {
            if i < front.len() {
                assert(all[i] == front[i]);
            } else {
                assert(all[i] == last[i - front.len()]);
            }
        }
    }
}

/// A generated token has two characters to the byte, survives the state file
/// and opens the server: what a client reads and sends back is understood.
pub proof fn law_generated_tokens_open_their_server(
    bytes: Seq<u8>,
    port: u16,
    workspace: Seq<char>,
    command: Command,
    index: int,
)
    requires
        bytes.len() > 0,
    ensures
        hex_bytes(bytes).len() == 2 * bytes.len(),
        state_taken(state_text(port, hex_bytes(bytes), workspace), index)
            == (SendingModel::Connect { candidate: index, port, secret: hex_bytes(bytes) }),
        authenticated(request_text(hex_bytes(bytes), command), hex_bytes(bytes)) == Ok::<
            Command,
            RefusalModel,
        >(command),
{
    lemma_hex_bytes(bytes);
    let token = hex_bytes(bytes);
    assert forall|i: int| 0 <= i < token.len() implies #[trigger] token[i] != '"' && !is_white(
        token[i],
    ) by {
        assert(is_hex_digit(token[i]));
    }
    law_the_state_file_leads_to_its_server(port, token, workspace, index);
    law_commands_reach_the_server(token, command);
}

/* ------------------------------------------------------------------ candidates */

proof fn lemma_state_name(workspace: Seq<char>)
    ensures
        state_name(workspace).len() == 21,
        is_name(state_name(workspace)),
{
    let hash = fnv_hash(encode_utf8(workspace)) as nat;
    let hex = fixed_hex(hash, 16);
    lemma_fixed_hex(hash, 16);
    reveal_strlit(".json");
    let name = state_name(workspace);
    assert(".json"@.len() == 5);
    assert(name.len() == 21);
    assert(seq!['/'].len() == 1);
    assert(seq!['.'].len() == 1);
    assert(seq!['.', '.'].len() == 2);
    assert forall|i: int| 0 <= i < name.len() implies name[i] != '/' by {
        if i < 16 {
            assert(name[i] == hex[i]);
            assert(is_hex_digit(hex[i]));
        } else {
            assert(name[i] == ".json"@[i - 16]);
        }
    }
}

/// Wherever a state file may be, it has the name of its workspace; and where
/// the server writes it is among the places where it is looked for.
pub proof fn law_candidates_share_one_name(workspace: Seq<char>, environment: EnvironmentModel)
    ensures
        state_files(workspace, environment).len() >= 1,
        forall|k: int|
            0 <= k < state_files(workspace, environment).len() ==> file_name(
                #[trigger] state_files(workspace, environment)[k],
            ) == Some(state_name(workspace)),
{
    lemma_state_name(workspace);
    let name = state_name(workspace);
    let files = state_files(workspace, environment);
    assert forall|k: int| 0 <= k < files.len() implies file_name(#[trigger] files[k]) == Some(
        name,
    ) by {
        let dir = state_directories(environment)[k];
        law_join_adds_a_component(dir, name);
        assert(components(files[k]) == components(dir).push(name));
    }
}

/// A client without the variable that names the runtime directory still looks
/// first where a server with it writes, as long as that is the conventional
/// place.
pub proof fn law_a_bare_shell_finds_the_server(
    workspace: Seq<char>,
    server: EnvironmentModel,
    client: EnvironmentModel,
)
    requires
        server.runtime is Some,
        client.runtime is None,
        client.conventional == server.runtime,
    ensures
        state_files(workspace, client)[0] == state_files(workspace, server)[0],
{
}

/* ------------------------------------------------------------------------ JSON */

/// A JSON string holds no control characters, so a state file is one line.
pub proof fn law_json_strings_are_one_line(s: Seq<char>)
    ensures
        forall|i: int| 0 <= i < json_inside(s).len() ==> #[trigger] json_inside(s)[i] as u32 >= 0x20,
    decreases s.len(),
{
    if s.len() > 0 {
        law_json_strings_are_one_line(s.drop_last());
        let front = json_inside(s.drop_last());
        let last = json_char(s.last());
        let all = json_inside(s);
        lemma_fixed_hex(s.last() as u32 as nat, 4);
        assert forall|i: int| 0 <= i < all.len() implies #[trigger] all[i] as u32 >= 0x20 by {
            if i < front.len() {
                assert(all[i] == front[i]);
            } else {
                assert(all[i] == last[i - front.len()]);
                let c = s.last();
                if c != '"' && c != '\\' && c != '\n' && c != '\r' && c != '\t' && (c as u32)
                    < 0x20 {
                    let k = i - front.len();
                    if k >= 2 {
                        assert(last[k] == fixed_hex(c as u32 as nat, 4)[k - 2]);
                        assert(is_hex_digit(fixed_hex(c as u32 as nat, 4)[k - 2]));
                    }
                }
            }
        }
    }
}

/// Workspaces whose hashes differ never share a state file.
pub proof fn law_different_hashes_give_different_files(
    a: Seq<char>,
    b: Seq<char>,
    environment: EnvironmentModel,
)
    requires
        fnv_hash(encode_utf8(a)) != fnv_hash(encode_utf8(b)),
    ensures
        state_name(a) != state_name(b),
        forall|i: int, j: int|
            0 <= i < state_files(a, environment).len() && 0 <= j < state_files(b, environment).len()
                ==> #[trigger] state_files(a, environment)[i] != #[trigger] state_files(
                b,
                environment,
            )[j],
{
    let m = fnv_hash(encode_utf8(a)) as nat;
    let n = fnv_hash(encode_utf8(b)) as nat;
    lemma_fixed_hex(m, 16);
    lemma_fixed_hex(n, 16);
    lemma_sixteen_digits();
    if state_name(a) == state_name(b) {
        assert(state_name(a).take(16) =~= fixed_hex(m, 16));
        assert(state_name(b).take(16) =~= fixed_hex(n, 16));
        lemma_hex_injective(m, n, 16);
    }
    law_candidates_share_one_name(a, environment);
    law_candidates_share_one_name(b, environment);
    assert forall|i: int, j: int|
        0 <= i < state_files(a, environment).len() && 0 <= j < state_files(
            b,
            environment,
        ).len() implies #[trigger] state_files(a, environment)[i] != #[trigger] state_files(
        b,
        environment,
    )[j] by {
        assert(file_name(state_files(a, environment)[i]) == Some(state_name(a)));
        assert(file_name(state_files(b, environment)[j]) == Some(state_name(b)));
    }
}

proof fn lemma_sixteen_digits()
    ensures
        vstd::arithmetic::power::pow(16, 16) == 0x1_0000_0000_0000_0000,
{
    reveal(vstd::arithmetic::power::pow);
    reveal_with_fuel(vstd::arithmetic::power::pow, 17);
}

/// Where a JSON string that goes on at `from` ends: at the first quote that no
/// backslash stands before.
pub open spec fn string_end(s: Seq<char>, from: int) -> Option<int>
    decreases s.len() + 1 - from,
{
    if from >= s.len() {
        None
    } else if s[from] == '"' {
        Some(from)
    } else if s[from] == '\\' {
        string_end(s, from + 2)
    } else {
        string_end(s, from + 1)
    }
}

proof fn lemma_json_front(s: Seq<char>)
    requires
        s.len() > 0,
    ensures
        json_inside(s) == json_char(s[0]) + json_inside(s.skip(1)),
    decreases s.len(),
{
    reveal_with_fuel(json_inside, 2);
    if s.len() == 1 {
        assert(s.drop_last() =~= Seq::<char>::empty());
        assert(s.skip(1) =~= Seq::<char>::empty());
        assert(json_inside(s) =~= json_char(s[0]) + json_inside(s.skip(1)));
    } else {
        lemma_json_front(s.drop_last());
        assert(s.drop_last().skip(1) =~= s.skip(1).drop_last());
        assert(s.skip(1).last() == s.last());
        assert(json_inside(s) =~= json_char(s[0]) + json_inside(s.skip(1)));
    }
}

proof fn lemma_hex_has_no_marks(s: Seq<char>, from: int, count: int)
    requires
        0 <= from,
        0 <= count,
        from + count <= s.len(),
        forall|i: int| from <= i < from + count ==> is_hex_digit(#[trigger] s[i]),
    ensures
        string_end(s, from) == string_end(s, from + count),
    decreases count,
{
    if count > 0 {
        assert(is_hex_digit(s[from]));
        lemma_hex_has_no_marks(s, from + 1, count - 1);
    }
}

proof fn lemma_skips_a_char(s: Seq<char>, from: int, c: char)
    requires
        0 <= from,
        occurs_at(s, json_char(c), from),
    ensures
        string_end(s, from) == string_end(s, from + json_char(c).len()),
{
    let code = json_char(c);
    let here = s.subrange(from, from + code.len());
    assert(forall|i: int| 0 <= i < code.len() ==> s[from + i] == here[i]);
    assert(here == code);
    assert(s[from] == code[0]);
    if c != '"' && c != '\\' && c != '\n' && c != '\r' && c != '\t' && (c as u32) < 0x20 {
        let digits = fixed_hex(c as u32 as nat, 4);
        lemma_fixed_hex(c as u32 as nat, 4);
        assert forall|i: int| from + 2 <= i < from + 6 implies is_hex_digit(#[trigger] s[i]) by {
            assert(s[i] == here[i - from]);
            assert(code[i - from] == digits[i - from - 2]);
            assert(is_hex_digit(digits[i - from - 2]));
        }
        lemma_hex_has_no_marks(s, from + 2, 4);
    }
}

/// A text inside a JSON string never ends the string: the quote that closes it
/// is the first one that counts, whatever the text holds.
pub proof fn law_json_strings_end_at_their_own_quote(
    lead: Seq<char>,
    s: Seq<char>,
    rest: Seq<char>,
)
    ensures
        string_end(lead + json_inside(s) + seq!['"'] + rest, lead.len() as int) == Some(
            (lead.len() + json_inside(s).len()) as int,
        ),
    decreases s.len(),
{
    let whole = lead + json_inside(s) + seq!['"'] + rest;
    let at = lead.len() as int;
    if s.len() == 0 {
        assert(whole[at] == '"');
    } else {
        lemma_json_front(s);
        let code = json_char(s[0]);
        let tail = json_inside(s.skip(1));
        assert(whole =~= (lead + code) + tail + seq!['"'] + rest);
        assert(whole.subrange(at, at + code.len()) =~= code);
        lemma_skips_a_char(whole, at, s[0]);
        law_json_strings_end_at_their_own_quote(lead + code, s.skip(1), rest);
    }
}

proof fn lemma_four_digits()
    ensures
        vstd::arithmetic::power::pow(16, 4) == 65536,
{
    reveal(vstd::arithmetic::power::pow);
    reveal_with_fuel(vstd::arithmetic::power::pow, 5);
}

proof fn lemma_json_char_apart(a: char, b: char, x: Seq<char>, y: Seq<char>)
    requires
        json_char(a) + x == json_char(b) + y,
    ensures
        a == b,
        x == y,
{
    let p = json_char(a);
    let q = json_char(b);
    let left = p + x;
    let right = q + y;
    assert(left[0] == p[0] && right[0] == q[0]);
    lemma_fixed_hex(a as u32 as nat, 4);
    lemma_fixed_hex(b as u32 as nat, 4);
    if p.len() > 1 && q.len() > 1 {
        assert(left[1] == p[1] && right[1] == q[1]);
        if p.len() == 6 && q.len() == 6 {
            let m = fixed_hex(a as u32 as nat, 4);
            let n = fixed_hex(b as u32 as nat, 4);
            assert(left.subrange(2, 6) =~= m);
            assert(right.subrange(2, 6) =~= n);
            lemma_four_digits();
            lemma_hex_injective(a as u32 as nat, b as u32 as nat, 4);
        }
    }
    assert(a == b);
    assert(left.skip(p.len() as int) =~= x);
    assert(right.skip(p.len() as int) =~= y);
}

/// Two texts that differ are different inside a JSON string.
pub proof fn law_json_strings_tell_texts_apart(a: Seq<char>, b: Seq<char>)
    requires
        json_inside(a) == json_inside(b),
    ensures
        a == b,
    decreases a.len(),
{
    if a.len() > 0 && b.len() > 0 {
        lemma_json_front(a);
        lemma_json_front(b);
        lemma_json_char_apart(a[0], b[0], json_inside(a.skip(1)), json_inside(b.skip(1)));
        law_json_strings_tell_texts_apart(a.skip(1), b.skip(1));
        assert(a =~= seq![a[0]] + a.skip(1));
        assert(b =~= seq![b[0]] + b.skip(1));
    } else if a.len() > 0 {
        lemma_json_front(a);
        assert(json_inside(a).len() >= json_char(a[0]).len() > 0);
        assert(json_inside(b).len() == 0);
    } else if b.len() > 0 {
        lemma_json_front(b);
        assert(json_inside(b).len() >= json_char(b[0]).len() > 0);
        assert(json_inside(a).len() == 0);
    } else {
        assert(a =~= b);
    }
}

} // verus!
