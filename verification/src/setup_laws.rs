//! What holds of every configuration.

use crate::address;
use crate::config;
use crate::cookies;
use crate::environment;
use crate::error;
use crate::gate;
use crate::template;
use vstd::prelude::*;

verus! {

/// Whether two services behave alike: the same settings, but for the order of
/// the sessions.
pub open spec fn alike(a: config::Settings, b: config::Settings) -> bool {
    &&& a.bind_address == b.bind_address
    &&& a.upstream == b.upstream
    &&& a.wall == b.wall
    &&& a.wrong_password_wall == b.wrong_password_wall
    &&& a.sessions.to_set() == b.sessions.to_set()
}

/// Services that are alike let the same requests pass and answer the same
/// passwords the same way.
pub proof fn lemma_alike_services_decide_alike(
    a: config::Settings,
    b: config::Settings,
    cookies: Seq<cookies::CookieText>,
    https: bool,
    location: Option<Seq<char>>,
    password: Option<Seq<char>>,
)
    requires
        alike(a, b),
    ensures
        cookies::opens_any(cookies, a.sessions) == cookies::opens_any(cookies, b.sessions),
        gate::password_reply(a, https, location, password) == gate::password_reply(
            b,
            https,
            location,
            password,
        ),
{
    assert forall|session: Seq<u8>|
        a.sessions.contains(session) == #[trigger] b.sessions.contains(session) by {
        assert(a.sessions.to_set().contains(session) == b.sessions.to_set().contains(session));
    }
    lemma_opens_any_member(cookies, a.sessions, b.sessions);
    lemma_opens_any_member(cookies, b.sessions, a.sessions);
}

proof fn lemma_opens_any_member(
    cookies: Seq<cookies::CookieText>,
    some: Seq<Seq<u8>>,
    all: Seq<Seq<u8>>,
)
    requires
        forall|session: Seq<u8>| some.contains(session) ==> #[trigger] all.contains(session),
    ensures
        cookies::opens_any(cookies, some) ==> cookies::opens_any(cookies, all),
{
    if cookies::opens_any(cookies, some) {
        let i = choose|i: int| 0 <= i < some.len() && cookies::opens(cookies, #[trigger] some[i]);
        assert(some.contains(some[i]));
        assert(all.contains(some[i]));
        let j = choose|j: int| 0 <= j < all.len() && all[j] == some[i];
        assert(cookies::opens(cookies, all[j]));
    }
}

/// The passwords that are not empty, counted.
proof fn lemma_given_counts(passwords: Seq<Seq<char>>)
    ensures
        config::given_passwords(passwords).to_multiset() == passwords.to_multiset().filter(
            |p: Seq<char>| p.len() > 0,
        ),
    decreases passwords.len(),
{
    broadcast use vstd::seq_lib::group_to_multiset_ensures;

    reveal(Seq::filter);
    let filled = |p: Seq<char>| p.len() > 0;
    let given = config::given_passwords(passwords);
    if passwords.len() == 0 {
        assert(given.to_multiset() =~= passwords.to_multiset().filter(filled));
    } else {
        let front = passwords.drop_last();
        let last = passwords.last();
        lemma_given_counts(front);
        assert(passwords =~= front.push(last));
        assert(passwords.to_multiset() =~= front.to_multiset().insert(last));
        if last.len() > 0 {
            assert(given =~= config::given_passwords(front).push(last));
        }
        assert(given.to_multiset() =~= passwords.to_multiset().filter(filled));
    }
}

/// Nothing occurs twice if and only if nothing counts twice.
proof fn lemma_no_duplicates_counts(passwords: Seq<Seq<char>>)
    ensures
        passwords.no_duplicates() <==> forall|p: Seq<char>|
            #[trigger] passwords.to_multiset().count(p) <= 1,
{
    if passwords.no_duplicates() {
        passwords.lemma_multiset_has_no_duplicates();
        assert forall|p: Seq<char>| #[trigger] passwords.to_multiset().count(p) <= 1 by {
            if passwords.to_multiset().count(p) > 0 {
                assert(passwords.to_multiset().contains(p));
            }
        }
    } else if forall|p: Seq<char>| #[trigger] passwords.to_multiset().count(p) <= 1 {
        passwords.lemma_multiset_has_no_duplicates_conv();
    }
}

proof fn lemma_given_again(passwords: Seq<Seq<char>>)
    ensures
        config::given_passwords(config::given_passwords(passwords)) == config::given_passwords(
            passwords,
        ),
    decreases passwords.len(),
{
    reveal(Seq::filter);
    if passwords.len() > 0 {
        let front = config::given_passwords(passwords.drop_last());
        lemma_given_again(passwords.drop_last());
        if passwords.last().len() > 0 {
            assert(front.push(passwords.last()).drop_last() =~= front);
        }
    }
}

/// Empty passwords do not count, in whatever number: without them the outcome
/// is the same.
pub proof fn lemma_empty_passwords_do_not_count(
    passwords: Seq<Seq<char>>,
    upstream: Seq<char>,
    address: Seq<char>,
    parsed: Option<address::AddressText>,
    template: Seq<char>,
    text: template::PageText,
)
    ensures
        config::configured(
            config::given_passwords(passwords),
            upstream,
            address,
            parsed,
            template,
            text,
        ) == config::configured(passwords, upstream, address, parsed, template, text),
{
    lemma_given_again(passwords);
}

/// The order of the passwords is irrelevant: the same passwords in another
/// order fail in the same way, or make a service that is alike.
pub proof fn lemma_order_of_passwords_is_irrelevant(
    passwords: Seq<Seq<char>>,
    reordered: Seq<Seq<char>>,
    upstream: Seq<char>,
    address: Seq<char>,
    parsed: Option<address::AddressText>,
    template: Seq<char>,
    text: template::PageText,
)
    requires
        passwords.to_multiset() == reordered.to_multiset(),
    ensures
        match (
            config::configured(passwords, upstream, address, parsed, template, text),
            config::configured(reordered, upstream, address, parsed, template, text),
        ) {
            (Ok(a), Ok(b)) => alike(a, b),
            (Err(a), Err(b)) => a == b,
            _ => false,
        },
{
    broadcast use vstd::seq_lib::group_to_multiset_ensures;

    let a = config::given_passwords(passwords);
    let b = config::given_passwords(reordered);
    lemma_given_counts(passwords);
    lemma_given_counts(reordered);
    lemma_no_duplicates_counts(a);
    lemma_no_duplicates_counts(b);
    assert(a.to_multiset() == b.to_multiset());
    assert(a.len() == a.to_multiset().len());
    assert(b.len() == b.to_multiset().len());
    lemma_digests_of_members(a, b);
    lemma_digests_of_members(b, a);
    assert(config::password_digests(a).to_set() =~= config::password_digests(b).to_set());
}

proof fn lemma_digests_of_members(some: Seq<Seq<char>>, all: Seq<Seq<char>>)
    requires
        some.to_multiset() == all.to_multiset(),
    ensures
        forall|d: Seq<u8>|
            config::password_digests(some).contains(d) ==> #[trigger] config::password_digests(
                all,
            ).contains(d),
{
    broadcast use vstd::seq_lib::group_to_multiset_ensures;

    assert forall|d: Seq<u8>| config::password_digests(some).contains(d) implies
        #[trigger] config::password_digests(all).contains(d) by {
        let i = choose|i: int|
            0 <= i < some.len() && config::password_digests(some)[i] == d;
        assert(some.contains(some[i]));
        assert(some.to_multiset().count(some[i]) > 0);
        assert(all.contains(some[i]));
        let j = choose|j: int| 0 <= j < all.len() && all[j] == some[i];
        assert(config::password_digests(all)[j] == d);
    }
}

/// Passwords are revoked independently. Without one of its passwords a service
/// still starts, as long as another one is left; that password no longer logs
/// in, a cookie that it was given opens nothing, and every other password's
/// session stays. No other password may have the same digest.
pub proof fn lemma_passwords_are_revoked_independently(
    passwords: Seq<Seq<char>>,
    i: int,
    upstream: Seq<char>,
    address: Seq<char>,
    parsed: Option<address::AddressText>,
    template: Seq<char>,
    text: template::PageText,
    https: bool,
    location: Option<Seq<char>>,
)
    requires
        config::configured(passwords, upstream, address, parsed, template, text) is Ok,
        0 <= i < passwords.len(),
        passwords[i].len() > 0,
        config::given_passwords(passwords.remove(i)).len() > 0,
        forall|j: int|
            0 <= j < passwords.len() && j != i && (#[trigger] passwords[j]).len() > 0
                ==> config::password_digest(passwords[j]) != config::password_digest(passwords[i]),
    ensures
        config::configured(
            passwords.remove(i),
            upstream,
            address,
            parsed,
            template,
            text,
        ) matches Ok(left) && {
            let revoked = config::password_digest(passwords[i]);
            &&& gate::password_reply(left, https, location, Some(passwords[i]))
                == gate::wall_reply(left.wall)
            &&& forall|token: Seq<char>, k: int|
                cookies::is_token_of(token, revoked) && 0 <= k < left.sessions.len()
                    ==> !#[trigger] cookies::is_token_of(token, left.sessions[k])
            &&& forall|j: int|
                0 <= j < passwords.len() && j != i && (#[trigger] passwords[j]).len() > 0
                    ==> left.sessions.contains(config::password_digest(passwords[j]))
        },
{
    broadcast use vstd::seq_lib::group_to_multiset_ensures;

    let rest = passwords.remove(i);
    let given = config::given_passwords(passwords);
    let left = config::given_passwords(rest);
    let filled = |p: Seq<char>| p.len() > 0;
    lemma_given_counts(passwords);
    lemma_given_counts(rest);
    lemma_no_duplicates_counts(given);
    lemma_no_duplicates_counts(left);
    assert(rest.to_multiset() == passwords.to_multiset().remove(passwords[i]));
    assert forall|p: Seq<char>| #[trigger] left.to_multiset().count(p) <= 1 by {
        assert(given.to_multiset().count(p) <= 1);
    }
    let revoked = config::password_digest(passwords[i]);
    let sessions = config::password_digests(left);
    assert forall|k: int| 0 <= k < sessions.len() implies #[trigger] sessions[k] != revoked by {
        rest.lemma_filter_pred(filled, k);
        rest.lemma_filter_contains_rev(filled, left[k]);
        let j = choose|j: int| 0 <= j < rest.len() && rest[j] == left[k];
        let original = if j < i {
            j
        } else {
            j + 1
        };
        assert(passwords[original] == left[k]);
    }
    assert forall|j: int|
        0 <= j < passwords.len() && j != i && (#[trigger] passwords[j]).len() > 0 implies
        sessions.contains(config::password_digest(passwords[j])) by {
        let moved = if j < i {
            j
        } else {
            j - 1
        };
        assert(rest[moved] == passwords[j]);
        rest.lemma_filter_contains(filled, moved);
        let k = choose|k: int| 0 <= k < left.len() && left[k] == passwords[j];
        assert(sessions[k] == config::password_digest(passwords[j]));
    }
}

/// What is printed of a configuration says nothing of its sessions: it is the
/// same whatever they are.
pub proof fn lemma_printed_text_hides_sessions(
    settings: config::Settings,
    sessions: Seq<Seq<u8>>,
)
    ensures
        config::redacted_text(config::Settings { sessions, ..settings }) == config::redacted_text(
            settings,
        ),
{
}

/// Whether a variable of that name configures anything. The path of the
/// template file is read apart from these.
pub open spec fn is_setting(name: Seq<char>) -> bool {
    ||| environment::is_password_name(name)
    ||| environment::is_text_name(name)
    ||| name == error::ENV_ADDRESS@
    ||| name == error::ENV_UPSTREAM@
}

proof fn lemma_lookup_without(
    before: Seq<environment::VarText>,
    var: environment::VarText,
    after: Seq<environment::VarText>,
    name: Seq<char>,
)
    requires
        var.name != Some(name),
    ensures
        environment::lookup_value(before.push(var) + after, name) == environment::lookup_value(
            before + after,
            name,
        ),
    decreases before.len(),
{
    let with = before.push(var) + after;
    let without = before + after;
    if before.len() == 0 {
        assert(with.drop_first() =~= without);
    } else {
        assert(with.first() == without.first());
        assert(with.drop_first() =~= before.drop_first().push(var) + after);
        assert(without.drop_first() =~= before.drop_first() + after);
        lemma_lookup_without(before.drop_first(), var, after, name);
    }
}

proof fn lemma_passwords_without(
    before: Seq<environment::VarText>,
    var: environment::VarText,
    after: Seq<environment::VarText>,
)
    requires
        environment::var_password(var) is None,
    ensures
        environment::env_passwords(before.push(var) + after) == environment::env_passwords(
            before + after,
        ),
    decreases after.len(),
{
    let with = before.push(var) + after;
    let without = before + after;
    if after.len() == 0 {
        assert(with.drop_last() =~= without);
    } else {
        assert(with.last() == without.last());
        assert(with.drop_last() =~= before.push(var) + after.drop_last());
        assert(without.drop_last() =~= before + after.drop_last());
        lemma_passwords_without(before, var, after.drop_last());
    }
}

proof fn lemma_page_text_without(
    before: Seq<environment::VarText>,
    var: environment::VarText,
    after: Seq<environment::VarText>,
)
    requires
        var.name matches Some(name) ==> !environment::is_text_name(name),
    ensures
        environment::env_page_text(before.push(var) + after) == environment::env_page_text(
            before + after,
        ),
    decreases after.len(),
{
    let with = before.push(var) + after;
    let without = before + after;
    if after.len() == 0 {
        assert(with.drop_last() =~= without);
        assert(with.last() == var);
    } else {
        assert(with.last() == without.last());
        assert(with.drop_last() =~= before.push(var) + after.drop_last());
        assert(without.drop_last() =~= before + after.drop_last());
        lemma_page_text_without(before, var, after.drop_last());
    }
}

/// Variables that are no settings do not matter, whatever they hold; nor does
/// a variable whose name is not Unicode.
pub proof fn lemma_other_variables_do_not_matter(
    before: Seq<environment::VarText>,
    var: environment::VarText,
    after: Seq<environment::VarText>,
    parsed: Option<address::AddressText>,
    file: environment::FileText,
)
    requires
        var.name matches Some(name) ==> !is_setting(name),
    ensures
        config::configured_by_env(before.push(var) + after, parsed, file)
            == config::configured_by_env(before + after, parsed, file),
{
    lemma_lookup_without(before, var, after, error::ENV_ADDRESS@);
    lemma_lookup_without(before, var, after, error::ENV_UPSTREAM@);
    lemma_passwords_without(before, var, after);
    lemma_page_text_without(before, var, after);
}

/// A password's name is no other setting.
proof fn lemma_password_names(name: Seq<char>)
    requires
        environment::is_password_name(name),
    ensures
        !environment::is_text_name(name),
        name != error::ENV_ADDRESS@,
        name != error::ENV_UPSTREAM@,
{
    reveal_strlit("MBA_ADDRESS");
    reveal_strlit("MBA_PASSWORD");
    reveal_strlit("MBA_PASSWORD_");
    reveal_strlit("MBA_UPSTREAM");
    reveal_strlit("MBA_TEMPLATE_PAGE_LANGUAGE");
    reveal_strlit("MBA_TEMPLATE_PAGE_TITLE");
    reveal_strlit("MBA_TEMPLATE_PASSWORD_LABEL");
    reveal_strlit("MBA_TEMPLATE_PASSWORD_PLACEHOLDER");
    reveal_strlit("MBA_TEMPLATE_WRONG_PASSWORD_MESSAGE");
    reveal_strlit("MBA_TEMPLATE_SUBMIT_BUTTON_TEXT");
    let prefix = error::ENV_PASSWORD_PREFIX@;
    if prefix.is_prefix_of(name) {
        assert(name.subrange(0, prefix.len() as int)[4] == name[4]);
    }
    assert(name[4] == 'P');
}

proof fn lemma_passwords_renamed(
    before: Seq<environment::VarText>,
    var: environment::VarText,
    renamed: environment::VarText,
    after: Seq<environment::VarText>,
)
    requires
        environment::var_password(var) == environment::var_password(renamed),
    ensures
        environment::env_passwords(before.push(var) + after) == environment::env_passwords(
            before.push(renamed) + after,
        ),
    decreases after.len(),
{
    let a = before.push(var) + after;
    let b = before.push(renamed) + after;
    if after.len() == 0 {
        assert(a.drop_last() =~= before);
        assert(b.drop_last() =~= before);
    } else {
        assert(a.last() == b.last());
        assert(a.drop_last() =~= before.push(var) + after.drop_last());
        assert(b.drop_last() =~= before.push(renamed) + after.drop_last());
        lemma_passwords_renamed(before, var, renamed, after.drop_last());
    }
}

/// A password variable's label carries no meaning, and the variable without a
/// label has no privilege: under another password name the same value makes
/// the same service.
pub proof fn lemma_password_labels_carry_no_meaning(
    before: Seq<environment::VarText>,
    name: Seq<char>,
    other: Seq<char>,
    value: environment::ValueText,
    after: Seq<environment::VarText>,
    parsed: Option<address::AddressText>,
    file: environment::FileText,
)
    requires
        environment::is_password_name(name),
        environment::is_password_name(other),
    ensures
        config::configured_by_env(
            before.push(environment::VarText { name: Some(name), value }) + after,
            parsed,
            file,
        ) == config::configured_by_env(
            before.push(environment::VarText { name: Some(other), value }) + after,
            parsed,
            file,
        ),
{
    let var = environment::VarText { name: Some(name), value };
    let renamed = environment::VarText { name: Some(other), value };
    lemma_password_names(name);
    lemma_password_names(other);
    lemma_lookup_without(before, var, after, error::ENV_ADDRESS@);
    lemma_lookup_without(before, renamed, after, error::ENV_ADDRESS@);
    lemma_lookup_without(before, var, after, error::ENV_UPSTREAM@);
    lemma_lookup_without(before, renamed, after, error::ENV_UPSTREAM@);
    lemma_page_text_without(before, var, after);
    lemma_page_text_without(before, renamed, after);
    lemma_passwords_renamed(before, var, renamed, after);
}

/// Whether a text holds another one.
pub open spec fn holds(text: Seq<char>, part: Seq<char>) -> bool {
    exists|i: int|
        0 <= i <= text.len() - part.len() && #[trigger] text.subrange(i, i + part.len()) == part
}

proof fn lemma_holds(before: Seq<char>, part: Seq<char>, after: Seq<char>)
    ensures
        holds(before + part + after, part),
{
    let text = before + part + after;
    let i = before.len() as int;
    assert(text.subrange(i, i + part.len()) =~= part);
}

/// The message of an error names the variable at fault. One of a template file
/// also gives its path.
pub proof fn lemma_message_names_the_variable(e: error::ErrorText)
    ensures
        ({
            let message = error::error_message(e);
            match e {
                error::ErrorText::InvalidAddress { .. } => holds(message, error::ENV_ADDRESS@),
                error::ErrorText::MissingPassword => holds(message, error::ENV_PASSWORD@) && holds(
                    message,
                    error::ENV_PASSWORD_PREFIX@,
                ),
                error::ErrorText::DuplicatePassword => true,
                error::ErrorText::InvalidTemplateText { variable } => holds(message, variable),
                error::ErrorText::InvalidTemplateFile { path, .. } => holds(
                    message,
                    error::ENV_TEMPLATE_FILE@,
                ) && holds(message, path),
                error::ErrorText::MissingUpstream | error::ErrorText::InvalidUpstream { .. } =>
                    holds(message, error::ENV_UPSTREAM@),
            }
        }),
{
    let message = error::error_message(e);
    match e {
        error::ErrorText::InvalidAddress { value, reason } => {
            let rest = "` is not a valid IP socket address ("@ + reason + "): "@
                + error::debug_text(value);
            lemma_holds("`"@, error::ENV_ADDRESS@, rest);
            assert("`"@ + error::ENV_ADDRESS@ + rest =~= message);
        },
        error::ErrorText::MissingPassword => {
            let first = "at least one password variable (`"@;
            let second = "<label>`) must have a non-empty UTF-8 value"@;
            let rest = "` or `"@ + error::ENV_PASSWORD_PREFIX@ + second;
            lemma_holds(first, error::ENV_PASSWORD@, rest);
            assert(first + error::ENV_PASSWORD@ + rest =~= message);
            lemma_holds(
                first + error::ENV_PASSWORD@ + "` or `"@,
                error::ENV_PASSWORD_PREFIX@,
                second,
            );
        },
        error::ErrorText::DuplicatePassword => {},
        error::ErrorText::InvalidTemplateText { variable } => {
            lemma_holds("`"@, variable, "` must contain valid Unicode"@);
        },
        error::ErrorText::InvalidTemplateFile { path, reason } => {
            let middle = "` is not a usable UTF-8 template ("@ + reason + "): \""@;
            lemma_holds("`"@, error::ENV_TEMPLATE_FILE@, middle + path + "\""@);
            assert("`"@ + error::ENV_TEMPLATE_FILE@ + (middle + path + "\""@) =~= message);
            lemma_holds("`"@ + error::ENV_TEMPLATE_FILE@ + middle, path, "\""@);
            assert("`"@ + error::ENV_TEMPLATE_FILE@ + middle + path + "\""@ =~= message);
        },
        error::ErrorText::MissingUpstream => {
            lemma_holds("`"@, error::ENV_UPSTREAM@, "` must be set"@);
        },
        error::ErrorText::InvalidUpstream { value, reason } => {
            let rest = "` is not a valid absolute http(s) URL ("@ + reason + "): "@
                + error::debug_text(value);
            lemma_holds("`"@, error::ENV_UPSTREAM@, rest);
            assert("`"@ + error::ENV_UPSTREAM@ + rest =~= message);
        },
    }
}

} // verus!
