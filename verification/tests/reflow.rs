use amp::reflow::{Reflow, ReflowError};

#[test]
fn justify_simple() {
    let text = String::from("\
a a a a a a a a a a a a a a a a a a a a a a a a a a a a a a a a a a a a a a a a a a a a a a a a a a a a a a a a a a a a a a a a a a a a a a a a\n");
    let reflowed = Reflow::new(text, 80).apply().unwrap();
    assert_eq!(
        reflowed,
        "\
a a a a a a a a a a a a a a a a a a a a a a a a a a a a a a a a a a a a a a a a
a a a a a a a a a a a a a a a a a a a a a a a a a a a a a a a a"
    );
}

#[test]
fn justify_paragraph() {
    let text = String::from("\
these are words to be used as demos for the thing that this is. this is text \
reflowing and justification over a few lines. this is just filler text in case \
it wasn't obvious.\n");
    let reflowed = Reflow::new(text, 80).apply().unwrap();
    assert_eq!(
        reflowed,
        "\
these are words to be used as demos for the thing that this is. this is text
reflowing and justification over a few lines. this is just filler text in case
it wasn't obvious."
    );
}

#[test]
fn justify_multiple_pars() {
    let text = String::from("\
Here's more filler text! So fun fact of the day, I was trying to just copy paste \
some lorem ipsum to annoy my latin student friends, but honestly it broke the \
M-q 'justify' function in emacs, which makes it a bit difficult to work with. \
Overall, it's just not that great with code!

Fun fact of the day number two, writing random paragraphs of text is honestly \
taking way more effort than I anticipated, and I deeply apologize for the lack \
of sanity and coherence here!

Fun fact of the day number three is that I spent three hours getting this to not \
branch. There is no way that that micro-optimization will actually save three \
hours worth of time, but I did it anyway for no good reason!\n");
    let reflowed = Reflow::new(text, 80).apply().unwrap();
    assert_eq!(
        reflowed,
        "\
Here's more filler text! So fun fact of the day, I was trying to just copy paste
some lorem ipsum to annoy my latin student friends, but honestly it broke the
M-q 'justify' function in emacs, which makes it a bit difficult to work with.
Overall, it's just not that great with code!

Fun fact of the day number two, writing random paragraphs of text is honestly
taking way more effort than I anticipated, and I deeply apologize for the lack
of sanity and coherence here!

Fun fact of the day number three is that I spent three hours getting this to not
branch. There is no way that that micro-optimization will actually save three
hours worth of time, but I did it anyway for no good reason!"
    );
}

#[test]
fn justify_simple_prefix() {
    let text = String::from("\
# a a a a a a a a a a a a a a a a a a a a a a a a a a a a a a a a a a a a a a a a a a a a a a a a a a a a a a a a a a a a a a a a a a a a a a a a\n");
    let reflowed = Reflow::new(text, 80).apply().unwrap();
    assert_eq!(
        reflowed,
        "\
# a a a a a a a a a a a a a a a a a a a a a a a a a a a a a a a a a a a a a a a
# a a a a a a a a a a a a a a a a a a a a a a a a a a a a a a a a a"
    );
}

#[test]
fn justify_paragraph_prefix() {
    let text = String::from("\
// filler text meant
// to do stuff and things that  end up with text nicely \
wrappped around a comment delimiter such as the double slashes in c-style \
languages.\n");
    let reflowed = Reflow::new(text, 80).apply().unwrap();
    assert_eq!(
        reflowed,
        "\
// filler text meant to do stuff and things that end up with text nicely
// wrappped around a comment delimiter such as the double slashes in c-style
// languages."
    );
}
#[test]
fn apply_refuses_a_selection_without_words() {
    assert_eq!(Reflow::new(String::from(" \n\t"), 80).apply(), Err(ReflowError::EmptySelection));
}

#[test]
fn infer_prefix_takes_a_leading_comment_marker() {
    assert_eq!(Reflow::new(String::from("// text"), 80).infer_prefix(), Ok(String::from("//")));
    assert_eq!(Reflow::new(String::from("text //"), 80).infer_prefix(), Ok(String::new()));
}

#[test]
fn justify_str_breaks_lines_at_the_limit() {
    let reflow = Reflow::new(String::from("aa bb cc\n\ndd"), 5);
    assert_eq!(reflow.justify_str(""), "aa bb\ncc\n\ndd");
    let reflow = Reflow::new(String::from("# aa bb # cc"), 7);
    assert_eq!(reflow.justify_str("#"), "# aa bb\n# cc");
}

#[test]
fn reflowed_lines_keep_to_the_limit() {
    let text = "// one two three four five six seven eight nine ten\n\n// eleven twelve extraordinarily";
    let out = Reflow::new(String::from(text), 16).apply().unwrap();
    for line in out.split('\n') {
        let fits = line.len() <= 16
            || (line.starts_with("// ") && !line[3..].contains(' ') && !line[3..].is_empty());
        assert!(fits, "line {:?} is too long", line);
    }
    assert!(out.lines().all(|l| l.is_empty() || l.starts_with("// ")));
}

#[test]
fn reflow_keeps_the_words_and_fills_each_line() {
    let text = "# one two three four\n# five six\n\n# seven eight nine";
    let out = Reflow::new(String::from(text), 14).apply().unwrap();
    let words = |s: &str| -> Vec<String> { s.split_whitespace().filter(|w| *w != "#").map(String::from).collect() };
    assert_eq!(words(&out), words(text));
    let lines: Vec<&str> = out.split('\n').collect();
    for pair in lines.windows(2) {
        if !pair[0].is_empty() && !pair[1].is_empty() {
            let next_word = pair[1].trim_start_matches("# ").split(' ').next().unwrap();
            assert!(pair[0].len() + 1 + next_word.len() > 14, "{:?} could take {:?}", pair[0], next_word);
        }
    }
}
