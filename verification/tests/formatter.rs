use litime::colour::get_colour;
use litime::minute::Minute;

#[test]
fn wrapped_quote() {
    let minute = Minute {
        start: "black black black ",
        time: "red red red red",
        end: " black black black",
        author: "author",
        title: "title",
    };

    let formatted = minute.formatted(20, "bright-black", "red", "white");
    let expected = [
        format!("\n  \" {}black black", get_colour("bright-black")),
        format!("    black {}red red", get_colour("red")),
        format!("    red red{} black", get_colour("bright-black")),
        format!("    black black{}\n", get_colour("reset")),
        format!("        {}author –", get_colour("white")),
        format!("        title{}\n", get_colour("reset")),
    ]
    .join("\n");

    assert_eq!(formatted, expected);
}

#[test]
fn short_quote() {
    let minute = Minute {
        start: "foo ",
        time: "bar",
        end: " baz",
        author: "author",
        title: "title",
    };

    let formatted = minute.formatted(50, "bright-black", "red", "white");
    let expected = [
        format!(
            "\n  \" {}foo {}bar{} baz{}\n",
            get_colour("bright-black"),
            get_colour("red"),
            get_colour("bright-black"),
            get_colour("reset")
        ),
        format!(
            "        {}author – title{}\n",
            get_colour("white"),
            get_colour("reset")
        ),
    ]
    .join("\n");

    assert_eq!(formatted, expected);
}

#[test]
fn no_start() {
    let minute = Minute {
        start: "",
        time: "bar",
        end: " baz",
        author: "author",
        title: "title",
    };

    let formatted = minute.formatted(50, "bright-black", "red", "white");
    let expected = [
        format!(
            "\n  \" {}{}bar{} baz{}\n",
            get_colour("bright-black"),
            get_colour("red"),
            get_colour("bright-black"),
            get_colour("reset")
        ),
        format!(
            "        {}author – title{}\n",
            get_colour("white"),
            get_colour("reset")
        ),
    ]
    .join("\n");

    assert_eq!(formatted, expected);
}

#[test]
fn no_end() {
    let minute = Minute {
        start: "foo ",
        time: "bar",
        end: "",
        author: "author",
        title: "title",
    };

    let formatted = minute.formatted(50, "bright-black", "red", "white");
    let expected = [
        format!(
            "\n  \" {}foo {}bar{}{}\n",
            get_colour("bright-black"),
            get_colour("red"),
            get_colour("bright-black"),
            get_colour("reset")
        ),
        format!(
            "        {}author – title{}\n",
            get_colour("white"),
            get_colour("reset")
        ),
    ]
    .join("\n");

    assert_eq!(formatted, expected);
}

#[test]
fn issue_4() {
    let minute = Minute {
        start: "At 10.15 Arlena departed from her rondezvous, a minute or two later Patrick Redfern came down and registered surprise, annoyance, etc. Christine's task was easy enough. Keeping her own watch concealed she asked Linda at twenty-five past eleven what time it was. Linda looked at her watch and replied that it was a ",
        time: "quarter to twelve",
        end: ".",
        author: "Agatha Christie",
        title: "Evil under the Sun",
    };

    let formatted = minute.formatted(50, "bright-black", "red", "white");
    let expected = [
        format!(
            "\n  \" {}At 10.15 Arlena departed from her rondezvous,",
            get_colour("bright-black")
        ),
        String::from("    a minute or two later Patrick Redfern came"),
        String::from("    down and registered surprise, annoyance, etc."),
        String::from("    Christine\'s task was easy enough. Keeping her"),
        String::from("    own watch concealed she asked Linda at"),
        String::from("    twenty-five past eleven what time it was."),
        String::from("    Linda looked at her watch and replied that it"),
        format!(
            "    was a {}quarter to twelve{}.{}\n",
            get_colour("red"),
            get_colour("bright-black"),
            get_colour("reset")
        ),
        format!(
            "        {}Agatha Christie – Evil under the Sun{}\n",
            get_colour("white"),
            get_colour("reset")
        ),
    ]
    .join("\n");

    assert_eq!(formatted, expected);
}

#[test]
fn issue_6() {
    let minute = Minute {
        start: "And the first stop had been at ",
        time: "1.16pm",
        end: " which was 17 minutes later.",
        author: "Mark Haddon",
        title: "The Curious Incident of the Dog in the Night-Time",
    };

    let formatted = minute.formatted(30, "bright-black", "red", "white");
    let expected = [
        format!(
            "\n  \" {}And the first stop had",
            get_colour("bright-black")
        ),
        format!(
            "    been at {}1.16pm{} which was",
            get_colour("red"),
            get_colour("bright-black")
        ),
        format!("    17 minutes later.{}\n", get_colour("reset")),
        format!("        {}Mark Haddon – The", get_colour("white")),
        String::from("        Curious Incident of"),
        String::from("        the Dog in the"),
        format!("        Night-Time{}\n", get_colour("reset")),
    ]
    .join("\n");

    assert_eq!(formatted, expected);
}
