use paracord::json::Json;
use paracord::routes::bots::{bot_app_to_json, BotApplicationRow};
use paracord::routes::channels::{forum_tag_to_json, poll_to_json, ForumTagRow, PollOptionRow, PollWithOptions};
use paracord::routes::commands::{command_row_to_json, ApplicationCommandRow};
use paracord::routes::guilds::{role_to_json, RoleRow};
use serde_json::Value;

fn to_value(j: &Json) -> Value {
    match j {
        Json::Null => Value::Null,
        Json::Bool(b) => Value::Bool(*b),
        Json::Number(Some(n)) => Value::from(*n),
        Json::Number(None) => Value::Null,
        Json::Str(s) => Value::String(s.clone()),
        Json::Array(items) => Value::Array(items.iter().map(to_value).collect()),
        Json::Object(fields) => {
            let mut m = serde_json::Map::new();
            for (k, v) in fields {
                m.insert(k.clone(), to_value(v));
            }
            Value::Object(m)
        }
    }
}

fn text(s: &str) -> Value {
    Value::String(s.to_string())
}

#[test]
fn role_json_fields() {
    let role = RoleRow {
        id: 11,
        guild_id: 5,
        name: "mods".to_string(),
        color: 255,
        hoist: true,
        position: 3,
        permissions: 8,
        managed: false,
        mentionable: true,
        created_at: (86_400, 0),
    };
    let v = to_value(&role_to_json(&role).unwrap());
    assert_eq!(v.get("id"), Some(&text("11")));
    assert_eq!(v.get("guild_id"), Some(&text("5")));
    assert_eq!(v.get("color"), Some(&Value::from(255)));
    assert_eq!(v.get("hoist"), Some(&Value::Bool(true)));
    assert_eq!(v.get("created_at"), Some(&text("1970-01-02T00:00:00+00:00")));
    assert_eq!(v.as_object().map(|m| m.len()), Some(10));
    let far = RoleRow { created_at: (i64::MAX, 0), ..role };
    assert!(role_to_json(&far).is_none());
}

#[test]
fn forum_tag_and_poll_json() {
    let tag = ForumTagRow {
        id: 1,
        channel_id: 2,
        name: "bug".to_string(),
        emoji: None,
        moderated: true,
        position: 0,
        created_at: (0, 500_000_000),
    };
    let v = to_value(&forum_tag_to_json(&tag).unwrap());
    assert_eq!(v.get("emoji"), Some(&Value::Null));
    assert_eq!(v.get("created_at"), Some(&text("1970-01-01T00:00:00.500+00:00")));
    let poll = PollWithOptions {
        id: 7,
        message_id: 8,
        channel_id: 9,
        question: "lunch?".to_string(),
        allow_multiselect: false,
        expires_at: None,
        created_at: (0, 0),
        options: vec![PollOptionRow {
            id: 70,
            text: "pizza".to_string(),
            emoji: Some("🍕".to_string()),
            position: 0,
            vote_count: 2,
            voted: true,
        }],
        total_votes: 2,
    };
    let v = to_value(&poll_to_json(&poll).unwrap());
    assert_eq!(v.get("expires_at"), Some(&Value::Null));
    assert_eq!(v.get("total_votes"), Some(&Value::from(2)));
    let option = &v.get("options").and_then(|o| o.as_array()).unwrap()[0];
    assert_eq!(option.get("id"), Some(&text("70")));
    assert_eq!(option.get("voted"), Some(&Value::Bool(true)));
}

#[test]
fn bot_app_json_shows_token_only_when_given() {
    let row = BotApplicationRow {
        id: 1,
        name: "helper".to_string(),
        description: None,
        owner_id: 2,
        bot_user_id: 3,
        redirect_uri: Some("https://x.example/cb".to_string()),
        permissions: 2048,
        created_at: (0, 0),
        updated_at: (60, 0),
    };
    let v = to_value(&bot_app_to_json(&row, None).unwrap());
    assert_eq!(v.get("token"), None);
    assert_eq!(v.get("permissions"), Some(&text("2048")));
    assert_eq!(v.get("updated_at"), Some(&text("1970-01-01T00:01:00+00:00")));
    let v = to_value(&bot_app_to_json(&row, Some("tok")).unwrap());
    assert_eq!(v.get("token"), Some(&text("tok")));
}

#[test]
fn command_json_defaults_options_to_empty_list() {
    let row = ApplicationCommandRow {
        id: 1,
        application_id: 2,
        guild_id: None,
        name: "ping".to_string(),
        description: "Ping".to_string(),
        options: None,
        cmd_type: 1,
        default_member_permissions: Some(8),
        dm_permission: true,
        nsfw: false,
        version: 4,
        created_at: (0, 0),
        updated_at: (0, 0),
    };
    let v = to_value(&command_row_to_json(row).unwrap());
    assert_eq!(v.get("options"), Some(&Value::Array(vec![])));
    assert_eq!(v.get("guild_id"), Some(&Value::Null));
    assert_eq!(v.get("default_member_permissions"), Some(&text("8")));
    assert_eq!(v.get("type"), Some(&Value::from(1)));
}
