//! The built-in password page.

use vstd::prelude::*;

verus! {

/// Embedded password-page template. Compiled into the library so rendering has
/// no runtime asset dependency.
pub const WALL_TEMPLATE: &'static str = r#"<!doctype html>
<html lang="{{PAGE_LANGUAGE}}">
  <head>
    <meta charset="utf-8">
    <meta name="viewport" content="width=device-width, initial-scale=1">
    <meta name="robots" content="noindex">
    <title>{{PAGE_TITLE}}</title>
    <style>
      :root {
        color-scheme: light dark;
        --error: #c62828;
      }
      * {
        box-sizing: border-box;
      }
      body {
        align-items: center;
        display: flex;
        font-family: system-ui, sans-serif;
        justify-content: center;
        margin: 0;
        min-height: 100vh;
      }
      form {
        display: flex;
        gap: 0.5rem;
        max-width: 24rem;
        padding: 1rem;
        width: 100%;
      }
      .field {
        flex: 1;
        position: relative;
      }
      input {
        border: 1px solid gray;
        border-radius: 0.375rem;
        font: inherit;
        padding: 0.5rem 2.25rem 0.5rem 0.75rem;
        width: 100%;
      }
      input[aria-invalid="true"] {
        border-color: var(--error);
      }
      svg {
        color: var(--error);
        display: none;
        height: 1.25rem;
        position: absolute;
        right: 0.625rem;
        top: 50%;
        transform: translateY(-50%);
        width: 1.25rem;
      }
      input[aria-invalid="true"] + svg {
        display: block;
      }
      button {
        border: 1px solid gray;
        border-radius: 0.375rem;
        cursor: pointer;
        font: inherit;
        padding: 0.5rem 1rem;
      }
      .visually-hidden {
        clip-path: inset(50%);
        height: 1px;
        overflow: hidden;
        position: absolute;
        white-space: nowrap;
        width: 1px;
      }
    </style>
  </head>
  <body>
    <!-- After a failed login the field takes the `autofocus` attribute, so that
         assistive technologies announce the error with it. -->
    <form method="post">
      <label class="visually-hidden" for="password">{{PASSWORD_LABEL}}</label>
      <div class="field">
        <input id="password" name="password" type="password" autocomplete="current-password" placeholder="{{PASSWORD_PLACEHOLDER}}" aria-invalid="{{IS_PASSWORD_INVALID}}" aria-describedby="error" required {{PASSWORD_AUTOFOCUS}}>
        <svg aria-hidden="true" viewBox="0 0 24 24" fill="none" stroke="currentColor" stroke-width="2" stroke-linecap="round" stroke-linejoin="round">
          <circle cx="12" cy="12" r="10"></circle>
          <line x1="12" x2="12" y1="8" y2="12"></line>
          <line x1="12" x2="12.01" y1="16" y2="16"></line>
        </svg>
        <span class="visually-hidden" id="error">{{WRONG_PASSWORD_MESSAGE}}</span>
      </div>
      <button type="submit">{{SUBMIT_BUTTON_TEXT}}</button>
    </form>
  </body>
</html>
"#;

} // verus!
