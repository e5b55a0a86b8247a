//! What the shares of a context promise: every message counts where it belongs, by its tokens.

use vstd::prelude::*;

use crate::context_usage::category_of;
use crate::context_usage::contains_image;
use crate::context_usage::context_json;
use crate::context_usage::counted_usage;
use crate::context_usage::input_usage;
use crate::context_usage::is_image_part;
use crate::context_usage::messages_counted;
use crate::context_usage::no_usage;
use crate::context_usage::token_count;
use crate::context_usage::tokens_added;
use crate::context_usage::Category;
use crate::event::is_rounded;
use crate::event::law_normalized_usage;
use crate::event::law_shares_are_proportional;
use crate::event::lemma_share;
use crate::event::normalized_usage;
use crate::event::share;
use crate::event::usage_sum;
use crate::event::ContextTokenUsage;
use crate::json::encoded_json;
use crate::json::member_of;
use crate::json::members_of;
use crate::json::text_of_json;
use crate::json::Json;
use crate::text::occurs_at;

verus! {

/// The tokens of `usage` in `category`.
pub open spec fn tokens_in(usage: ContextTokenUsage, category: Category) -> int {
    match category {
        Category::System => usage.system as int,
        Category::Compact => usage.compact as int,
        Category::Memory => usage.memory as int,
        Category::User => usage.user as int,
        Category::Model => usage.model as int,
        Category::Tool => usage.tool as int,
    }
}

/// The tokens of those of `messages` that belong to `category`, added up.
pub open spec fn tokens_of_category(messages: Seq<Json>, category: Category) -> int
    decreases messages.len(),
{
    if messages.len() == 0 {
        0
    } else {
        tokens_of_category(messages.drop_last(), category) + if category_of(messages.last())
            == category {
            token_count(encoded_json(messages.last())) as int
        } else {
            0
        }
    }
}

/// The tokens that tools add to `category`: all of them to the system.
pub open spec fn tokens_of_tools(tools: Seq<Json>, category: Category) -> int {
    if category == Category::System && tools.len() > 0 {
        token_count(encoded_json(Json::Array(tools))) as int
    } else {
        0
    }
}

/// `total`, or the largest `u64` where that is less.
pub open spec fn at_most_u64(total: int) -> int {
    if total <= u64::MAX {
        total
    } else {
        u64::MAX as int
    }
}

proof fn lemma_tokens_added(usage: ContextTokenUsage, category: Category, tokens: u64)
    ensures
        forall|other: Category|
            #[trigger] tokens_in(tokens_added(usage, category, tokens), other) == if other
                == category {
                at_most_u64(tokens_in(usage, other) + tokens)
            } else {
                tokens_in(usage, other)
            },
{
}

proof fn lemma_not_negative(messages: Seq<Json>, category: Category)
    ensures
        0 <= tokens_of_category(messages, category),
    decreases messages.len(),
{
    if messages.len() > 0 {
        lemma_not_negative(messages.drop_last(), category);
    }
}

proof fn lemma_counted(start: ContextTokenUsage, messages: Seq<Json>, category: Category)
    ensures
        tokens_in(messages_counted(start, messages), category) == at_most_u64(
            tokens_in(start, category) + tokens_of_category(messages, category),
        ),
    decreases messages.len(),
{
    if messages.len() > 0 {
        let before = messages.drop_last();
        lemma_counted(start, before, category);
        lemma_not_negative(before, category);
        lemma_tokens_added(
            messages_counted(start, before),
            category_of(messages.last()),
            token_count(encoded_json(messages.last())) as u64,
        );
    }
}

/// What a category comes to is what its messages come to, one by one, and the tools where it is the
/// system.
pub proof fn law_categories_are_sums(messages: Seq<Json>, tools: Seq<Json>, category: Category)
    ensures
        tokens_in(counted_usage(messages, tools), category) == at_most_u64(
            tokens_of_tools(tools, category) + tokens_of_category(messages, category),
        ),
{
    let start = if tools.len() == 0 {
        no_usage()
    } else {
        tokens_added(
            no_usage(),
            Category::System,
            token_count(encoded_json(Json::Array(tools))) as u64,
        )
    };
    if tools.len() > 0 {
        lemma_tokens_added(
            no_usage(),
            Category::System,
            token_count(encoded_json(Json::Array(tools))) as u64,
        );
    }
    assert(tokens_in(start, category) == tokens_of_tools(tools, category));
    lemma_counted(start, messages, category);
}

/// One more message raises the category that it belongs to by its tokens, and no other one.
pub proof fn law_messages_raise_their_category(
    messages: Seq<Json>,
    tools: Seq<Json>,
    message: Json,
    category: Category,
)
    ensures
        tokens_in(counted_usage(messages.push(message), tools), category) == if category_of(message)
            == category {
            at_most_u64(
                tokens_in(counted_usage(messages, tools), category) + token_count(
                    encoded_json(message),
                ),
            )
        } else {
            tokens_in(counted_usage(messages, tools), category)
        },
{
    law_categories_are_sums(messages, tools, category);
    law_categories_are_sums(messages.push(message), tools, category);
    assert(messages.push(message).drop_last() =~= messages);
    lemma_not_negative(messages, category);
}

/// The parts of a context, if they are anything at all, are brought to the tokens of the context as
/// a whole, each in proportion: no share is off by a token or more.
pub proof fn law_parts_come_to_the_whole(
    messages: Seq<Json>,
    tools: Seq<Json>,
    category: Category,
)
    requires
        usage_sum(counted_usage(messages, tools)) > 0,
    ensures
        ({
            let parts = counted_usage(messages, tools);
            let whole = token_count(encoded_json(context_json(messages, tools))) as int;
            let sum = usage_sum(parts);
            let share = tokens_in(input_usage(messages, tools), category);
            &&& usage_sum(input_usage(messages, tools)) == whole
            &&& -sum < share * sum - tokens_in(parts, category) * whole < sum
        }),
{
    let parts = counted_usage(messages, tools);
    let whole = token_count(encoded_json(context_json(messages, tools))) as u64;
    law_normalized_usage(parts, whole);
    law_shares_are_proportional(parts, whole);
}

/// Whether `message` says that it comes from `role`.
pub open spec fn comes_from(message: Json, role: Seq<char>) -> bool {
    text_of_json(member_of(message, "role"@)) == Some(role)
}

/// Whether `message` holds `part` among others.
pub open spec fn holds_part(message: Json, part: Json) -> bool {
    member_of(message, "content"@) matches Some(Json::Array(parts)) && parts.contains(part)
}

/// Whether `part` is an image by its type or by what it holds.
pub open spec fn shows_image(part: Json) -> bool {
    ||| text_of_json(member_of(part, "type"@)) == Some("image_url"@)
    ||| text_of_json(member_of(part, "type"@)) == Some("input_image"@)
    ||| member_of(part, "image_url"@) is Some
}

/// Who a message comes from decides what it counts as, but for messages of the user: one with an
/// image is input of a tool, and one whose text begins with an injection belongs to what was
/// injected. All else that the user says is theirs, and all that comes from elsewhere is the model's.
pub proof fn law_messages_count_by_their_origin(message: Json)
    ensures
        comes_from(message, "system"@) ==> category_of(message) == Category::System,
        comes_from(message, "tool"@) ==> category_of(message) == Category::Tool,
        comes_from(message, "assistant"@) ==> category_of(message) == Category::Model,
        !comes_from(message, "system"@) && !comes_from(message, "tool"@) && !comes_from(
            message,
            "user"@,
        ) ==> category_of(message) == Category::Model,
        comes_from(message, "user"@) ==> category_of(message) != Category::Model,
        comes_from(message, "user"@) ==> (category_of(message) == Category::Tool <==> exists|
            part: Json,
        | #[trigger] holds_part(message, part) && shows_image(part)),
        comes_from(message, "user"@) && member_of(message, "content"@) is None ==> category_of(
            message,
        ) == Category::User,
{
    reveal_strlit("system");
    reveal_strlit("tool");
    reveal_strlit("assistant");
    reveal_strlit("user");
    assert("system"@[0] == 's' && "tool"@[0] == 't' && "assistant"@[0] == 'a' && "user"@[0] == 'u');
    if contains_image(message) {
        if let Some(Json::Array(parts)) = member_of(message, "content"@) {
            let i = choose|i: int| 0 <= i < parts.len() && is_image_part(#[trigger] parts[i]);
            assert(parts.contains(parts[i]));
            assert(holds_part(message, parts[i]) && shows_image(parts[i]));
        }
    }
    if exists|part: Json| #[trigger] holds_part(message, part) && shows_image(part) {
        let part = choose|part: Json| #[trigger] holds_part(message, part) && shows_image(part);
        if let Some(Json::Array(parts)) = member_of(message, "content"@) {
            let i = choose|i: int| 0 <= i < parts.len() && parts[i] == part;
            assert(is_image_part(parts[i]));
        }
    }
}

/// Whether `message` of the user is the text `content`.
pub open spec fn is_user_text(message: Json, content: Seq<char>) -> bool {
    comes_from(message, "user"@) && member_of(message, "content"@) == Some(Json::Text(content))
}

/// What is injected into what the user says counts by its type, and by nothing behind it.
pub proof fn law_injections_count_by_their_type(message: Json, content: Seq<char>)
    requires
        is_user_text(message, content),
    ensures
        !occurs_at(content, "<system_prompt_injection "@, 0) ==> category_of(message)
            == Category::User,
        occurs_at(content, "<system_prompt_injection type=\"compact_summary\">"@, 0) ==> category_of(
            message,
        ) == Category::Compact,
        occurs_at(content, "<system_prompt_injection type=\"compact\">"@, 0) ==> category_of(message)
            == Category::Compact,
        occurs_at(content, "<system_prompt_injection type=\"turn_history\">"@, 0) ==> category_of(
            message,
        ) == Category::Memory,
        occurs_at(content, "<system_prompt_injection "@, 0) ==> category_of(message)
            != Category::User,
        category_of(message) == Category::Compact ==> occurs_at(
            content,
            "<system_prompt_injection type=\"compact"@,
            0,
        ),
        category_of(message) == Category::Memory ==> occurs_at(
            content,
            "<system_prompt_injection type=\"turn_history\">"@,
            0,
        ),
{
    reveal_strlit("system");
    reveal_strlit("tool");
    reveal_strlit("assistant");
    reveal_strlit("user");
    assert("system"@[0] == 's' && "tool"@[0] == 't' && "assistant"@[0] == 'a' && "user"@[0] == 'u');
    reveal_strlit("<system_prompt_injection ");
    reveal_strlit("<system_prompt_injection type=\"compact");
    reveal_strlit("<system_prompt_injection type=\"compact\">");
    reveal_strlit("<system_prompt_injection type=\"compact_summary\">");
    reveal_strlit("<system_prompt_injection type=\"turn_history\">");
    let any = "<system_prompt_injection "@;
    let compact = "<system_prompt_injection type=\"compact"@;
    let short = "<system_prompt_injection type=\"compact\">"@;
    let long = "<system_prompt_injection type=\"compact_summary\">"@;
    let history = "<system_prompt_injection type=\"turn_history\">"@;
    lemma_begins(content, short, compact);
    lemma_begins(content, long, compact);
    lemma_begins(content, short, any);
    lemma_begins(content, long, any);
    lemma_begins(content, history, any);
    if occurs_at(content, history, 0) {
        assert(history[31] == 't' && short[31] == 'c' && long[31] == 'c');
        assert(content.subrange(0, history.len() as int)[31] == content[31]);
        if occurs_at(content, short, 0) {
            assert(content.subrange(0, short.len() as int)[31] == content[31]);
        }
        if occurs_at(content, long, 0) {
            assert(content.subrange(0, long.len() as int)[31] == content[31]);
        }
    }
}

/// What begins with `pattern` begins with what `pattern` begins with.
proof fn lemma_begins(content: Seq<char>, pattern: Seq<char>, start: Seq<char>)
    requires
        start.len() <= pattern.len(),
        pattern.take(start.len() as int) =~= start,
    ensures
        occurs_at(content, pattern, 0) ==> occurs_at(content, start, 0),
{
    if occurs_at(content, pattern, 0) {
        let found = content.subrange(0, pattern.len() as int);
        assert(content.subrange(0, start.len() as int) =~= found.take(start.len() as int));
    }
}

/// The place of `category` among the categories.
pub open spec fn place_of(category: Category) -> int {
    match category {
        Category::System => 0,
        Category::Compact => 1,
        Category::Memory => 2,
        Category::User => 3,
        Category::Model => 4,
        Category::Tool => 5,
    }
}

proof fn lemma_rounding(value: u64, total: u64, sum: int)
    requires
        0 < sum,
        value <= sum,
    ensures
        share(value, total, sum) as u64 * sum <= value * total,
        is_rounded(value, total, sum) ==> (share(value, total, sum) + 1) as u64 * sum > value
            * total,
        !is_rounded(value, total, sum) ==> share(value, total, sum) as u64 * sum == value * total,
{
    lemma_share(value, total, sum);
    let part = share(value, total, sum);
    let product = value * total;
    assert(part * sum + product % sum == product && 0 <= product % sum < sum) by (nonlinear_arith)
        requires
            part == product / sum,
            0 < sum,
    ;
    assert((part + 1) * sum == part * sum + sum) by (nonlinear_arith);
}

/// Tokens that are left over by rounding go to the first categories that were rounded: where one is
/// rounded up, every earlier one that does not come out even is too.
pub proof fn law_first_categories_are_rounded_up(
    usage: ContextTokenUsage,
    total: u64,
    earlier: Category,
    later: Category,
)
    requires
        usage_sum(usage) > 0,
        place_of(earlier) < place_of(later),
    ensures
        ({
            let sum = usage_sum(usage);
            let after = normalized_usage(usage, total);
            tokens_in(after, later) * sum > tokens_in(usage, later) * total && (tokens_in(
                usage,
                earlier,
            ) * total) % sum != 0 ==> tokens_in(after, earlier) * sum > tokens_in(usage, earlier)
                * total
        }),
{
    let sum = usage_sum(usage);
    lemma_rounding(usage.system, total, sum);
    lemma_rounding(usage.compact, total, sum);
    lemma_rounding(usage.memory, total, sum);
    lemma_rounding(usage.user, total, sum);
    lemma_rounding(usage.model, total, sum);
    lemma_rounding(usage.tool, total, sum);
}

/// A context as a whole is its messages and its tools, each under its name, and nothing else.
pub proof fn law_contexts_are_messages_and_tools(messages: Seq<Json>, tools: Seq<Json>)
    ensures
        member_of(context_json(messages, tools), "messages"@) == Some(Json::Array(messages)),
        member_of(context_json(messages, tools), "tools"@) == Some(Json::Array(tools)),
        forall|name: Seq<char>|
            name != "messages"@ && name != "tools"@ ==> (#[trigger] member_of(
                context_json(messages, tools),
                name,
            )) is None,
{
    reveal_strlit("messages");
    reveal_strlit("tools");
    let entries = seq![("messages"@, Json::Array(messages)), ("tools"@, Json::Array(tools))];
    reveal_with_fuel(members_of, 3);
    assert(entries.drop_last() =~= seq![("messages"@, Json::Array(messages))]);
    assert(entries.drop_last().drop_last() =~= Seq::empty());
    assert("messages"@.len() != "tools"@.len());
}

} // verus!
