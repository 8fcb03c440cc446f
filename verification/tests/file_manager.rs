use parallax_gif::file_manager::{FileManager, README_MARKER};

fn with_std_lines(content: &str, prompt: &str) -> Option<String> {
    let mut updated = String::new();
    for line in content.lines() {
        updated.push_str(line);
        updated.push('\n');
        if line.trim() == README_MARKER {
            updated.push_str(&format!("\n**Prompt:** {}\n", prompt));
            return Some(updated);
        }
    }
    None
}

#[test]
fn files_are_named_by_their_date() {
    assert_eq!(FileManager::image_path("2024-05-01"), "images/image_2024-05-01.png");
    assert_eq!(FileManager::prompt_path("2024-05-01"), "prompts/prompt_2024-05-01.txt");
    assert_eq!(FileManager::gif_path("2024-05-01"), "gifs/gif_2024-05-01.gif");
    assert_eq!(FileManager::image_path("current"), "images/image_current.png");
}

#[test]
fn layers_are_numbered_from_one() {
    assert_eq!(FileManager::layer_path(0, "2024-05-01"), "layers/1/layer_2024-05-01.png");
    assert_eq!(FileManager::layer_path(1, "2024-05-01"), "layers/2/layer_2024-05-01.png");
    assert_eq!(FileManager::layer_path(2, "2024-05-01"), "layers/3/layer_2024-05-01.png");
    assert_eq!(FileManager::layer_path(3, "2024-05-01"), "layers/4/layer_2024-05-01.png");
}

#[test]
fn the_prompt_goes_below_the_image_and_the_rest_is_dropped() {
    let content = "# Title\n\n![image](images/image_current.png)\n\n**Prompt:** old\n\nmore\n";
    assert_eq!(
        FileManager::updated_readme(content, "A new prompt."),
        Some("# Title\n\n![image](images/image_current.png)\n\n**Prompt:** A new prompt.\n".to_string())
    );
}

#[test]
fn a_readme_without_the_image_is_left_alone() {
    assert_eq!(FileManager::updated_readme("# Title\nno image here\n", "p"), None);
    assert_eq!(FileManager::updated_readme("", "p"), None);
    assert_eq!(FileManager::updated_readme("![image](images/image_other.png)", "p"), None);
    assert_eq!(FileManager::updated_readme("x ![image](images/image_current.png)", "p"), None);
}

#[test]
fn white_space_around_the_image_line_does_not_count() {
    let content = "a\r\n \t![image](images/image_current.png)  \r\nb";
    assert_eq!(
        FileManager::updated_readme(content, "p"),
        Some("a\n \t![image](images/image_current.png)  \n\n**Prompt:** p\n".to_string())
    );
    let last = "![image](images/image_current.png)";
    assert_eq!(
        FileManager::updated_readme(last, "p"),
        Some("![image](images/image_current.png)\n\n**Prompt:** p\n".to_string())
    );
    let carriage = "![image](images/image_current.png)\r";
    assert_eq!(
        FileManager::updated_readme(carriage, "p"),
        Some("![image](images/image_current.png)\r\n\n**Prompt:** p\n".to_string())
    );
}

#[test]
fn the_first_image_line_counts() {
    let content = "![image](images/image_current.png)\nx\n![image](images/image_current.png)\n";
    assert_eq!(
        FileManager::updated_readme(content, "two words"),
        Some("![image](images/image_current.png)\n\n**Prompt:** two words\n".to_string())
    );
}

#[test]
fn the_readme_agrees_with_the_lines_of_the_standard_library() {
    let pieces = [
        "", "a", "\n", "\r\n", "\r", " ", "\u{a0}", "![image](images/image_current.png)",
        "![image](images/image_current.png) ", "\t![image](images/image_current.png)", "é\n",
    ];
    for a in pieces {
        for b in pieces {
            for c in pieces {
                let content = format!("{}{}{}", a, b, c);
                assert_eq!(
                    FileManager::updated_readme(&content, "the prompt"),
                    with_std_lines(&content, "the prompt"),
                    "for {:?}",
                    content
                );
            }
        }
    }
}
